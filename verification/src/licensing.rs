//! License rules shared by the license server and the hub: the claims of
//! issued and refreshed tokens, expiry, revocation, the grace period that
//! keeps a plan after missed refreshes, and single-use activation codes.

use vstd::prelude::*;
use crate::text::{str_eq, trim, trim_str};
use jsonwebtoken::{encode, Algorithm, EncodingKey, Header};

verus! {

/// Issuer written into every license token.
pub open spec fn issuer() -> Seq<char> {
    "schedula-license"@
}

/// Seconds in a day.
pub const SECONDS_PER_DAY: i64 = 86400;

/// Lifetime of a refreshed token: 48 hours.
pub const REFRESH_LIFETIME: i64 = 172800;

/// Days a hub keeps its plan after the last successful refresh.
pub const GRACE_DAYS: i64 = 7;

/// The claims of a license token.
pub struct LicenseClaims {
    pub iss: String,
    pub sub: String,
    pub plan: String,
    pub org_name: Option<String>,
    /// Expiry (Unix seconds); 0 for a perpetual license.
    pub exp: i64,
    pub iat: i64,
    pub jti: String,
}

/// The text of an optional string.
pub open spec fn opt_view(o: Option<String>) -> Option<Seq<char>> {
    match o {
        Some(s) => Some(s@),
        None => None,
    }
}

fn clone_opt(o: &Option<String>) -> (r: Option<String>)
    ensures
        opt_view(r) == opt_view(*o),
{
    match o {
        Some(s) => Some(s.clone()),
        None => None,
    }
}

/// A plan a license can be issued for.
pub open spec fn is_valid_plan_spec(plan: Seq<char>) -> bool {
    plan == "pro"@ || plan == "institution"@
}

/// Whether a license can be issued for the plan ("pro" or "institution").
pub fn is_valid_plan(plan: &str) -> (b: bool)
    ensures
        b == is_valid_plan_spec(plan@),
{
    str_eq(plan, "pro") || str_eq(plan, "institution")
}

/// Whether a request carries the admin key (`X-Admin-Key`).
pub fn require_admin(provided: &Option<String>, admin_key: &str) -> (b: bool)
    ensures
        b == (provided matches Some(k) && k@ == admin_key@),
{
    match provided {
        Some(k) => str_eq(k.as_str(), admin_key),
        None => false,
    }
}

/// Expiry of a license issued at `now` for `duration_days`: that many days
/// later when positive, else 0 (perpetual).
pub open spec fn issued_expiry(duration_days: Option<i64>, now: i64) -> int {
    match duration_days {
        Some(d) => if d > 0 { now + d * 86400 } else { 0 },
        None => 0,
    }
}

/// The claims of a newly issued license.
pub fn issue_claims(jti: String, plan: &str, org_name: Option<String>, duration_days: Option<i64>, now: i64) -> (c: LicenseClaims)
    requires
        match duration_days {
            Some(d) => d > 0 ==> d * 86400 <= i64::MAX && now + d * 86400 <= i64::MAX,
            None => true,
        },
    ensures
        c.iss@ == issuer(),
        c.sub@ == jti@,
        c.jti@ == jti@,
        c.plan@ == plan@,
        opt_view(c.org_name) == opt_view(org_name),
        c.exp == issued_expiry(duration_days, now),
        c.iat == now,
{
    let exp: i64 = match duration_days {
        Some(d) => if d > 0 {
            assert(d * 86400 >= 0) by (nonlinear_arith)
                requires
                    d > 0,
            ;
            let span = d * 86400;
            now + span
        } else {
            0
        },
        None => 0,
    };
    LicenseClaims {
        iss: String::from_str("schedula-license"),
        sub: jti.clone(),
        plan: String::from_str(plan),
        org_name,
        exp,
        iat: now,
        jti,
    }
}

/// The claims of a refreshed token: the same license, plan and
/// organization, valid 48 hours from `now`.
pub fn refreshed_claims(c: &LicenseClaims, now: i64) -> (r: LicenseClaims)
    requires
        now + REFRESH_LIFETIME <= i64::MAX,
    ensures
        r.iss@ == issuer(),
        r.sub@ == c.jti@,
        r.jti@ == c.jti@,
        r.plan@ == c.plan@,
        opt_view(r.org_name) == opt_view(c.org_name),
        r.exp == now + REFRESH_LIFETIME,
        r.iat == now,
{
    LicenseClaims {
        iss: String::from_str("schedula-license"),
        sub: c.jti.clone(),
        plan: c.plan.clone(),
        org_name: clone_opt(&c.org_name),
        exp: now + REFRESH_LIFETIME,
        iat: now,
        jti: c.jti.clone(),
    }
}

/// A token has expired: it has an expiry (perpetual tokens have 0) and
/// `now` is past it.
pub open spec fn is_expired(exp: i64, now: i64) -> bool {
    exp > 0 && now > exp
}

/// Whether a token with expiry `exp` has expired at `now`.
pub fn token_expired(exp: i64, now: i64) -> (b: bool)
    ensures
        b == is_expired(exp, now),
{
    exp > 0 && now > exp
}

/// A license issued for `d > 0` days is not expired at any moment up to
/// `d` days after issue and is expired at every later moment; a license
/// issued without a positive duration never expires.
pub proof fn lemma_issued_validity(duration_days: Option<i64>, issued: i64, now: i64)
    requires
        issued >= 0,
        match duration_days {
            Some(d) => d > 0 ==> d * 86400 <= i64::MAX && issued + d * 86400 <= i64::MAX,
            None => true,
        },
    ensures
        match duration_days {
            Some(d) => if d > 0 {
                is_expired(issued_expiry(duration_days, issued) as i64, now) <==> now > issued + d * 86400
            } else {
                !is_expired(issued_expiry(duration_days, issued) as i64, now)
            },
            None => !is_expired(issued_expiry(duration_days, issued) as i64, now),
        },
{
    match duration_days {
        Some(d) => {
            if d > 0 {
                assert(d * 86400 > 0) by (nonlinear_arith)
                    requires
                        d > 0,
                ;
            }
        },
        None => {},
    }
}

/// A refreshed token is valid when it is handed out and for the next 48
/// hours, and expired after that.
pub proof fn lemma_refresh_window(now: i64, later: i64)
    requires
        now + REFRESH_LIFETIME <= i64::MAX,
        now >= 0,
    ensures
        !is_expired((now + REFRESH_LIFETIME) as i64, now),
        is_expired((now + REFRESH_LIFETIME) as i64, later) <==> later > now + REFRESH_LIFETIME,
{
}

/// The hub's expiry check on verified claims: the claims, or the error
/// "License token has expired".
pub fn check_expiry(claims: LicenseClaims, now: i64) -> (r: Result<LicenseClaims, String>)
    ensures
        r is Ok <==> !is_expired(claims.exp, now),
        r matches Ok(c) ==> c == claims,
        r matches Err(m) ==> m@ == "License token has expired"@,
{
    if token_expired(claims.exp, now) {
        Err(String::from_str("License token has expired"))
    } else {
        Ok(claims)
    }
}

// ── Verifying license tokens ───────────────────────────────────────────────

/// What `jsonwebtoken::decode` gives for an RS256 token checked against the
/// public key `pem` and the issuer `iss`, with expiry not checked: the
/// claims as JSON text, or the failure, `(true, text)` when the key cannot be
/// read and `(false, text)` for the token.
pub uninterp spec fn rs256_payload(token: Seq<char>, pem: Seq<char>, iss: Seq<char>) -> Result<Seq<char>, (bool, Seq<char>)>;

/// The license claims read from their JSON text: `iss`, `sub`, `plan`,
/// `org_name`, `exp`, `iat`, `jti`; none when a field is missing or of the
/// wrong type (`org_name` may be missing or null, and then reads as none).
pub uninterp spec fn license_fields(json: Seq<char>) -> Option<(Seq<char>, Seq<char>, Seq<char>, Option<Seq<char>>, i64, i64, Seq<char>)>;

/// Calls `jsonwebtoken::DecodingKey::from_rsa_pem` and `jsonwebtoken::decode`
/// (RS256, issuer `iss`, expiry not validated) into a JSON value. Claimed:
/// the outcome is `rs256_payload` of the arguments, the claims written back
/// as JSON text and the errors as their text.
#[verifier::external_body]
fn rs256_verify(token: &str, pem: &str, iss: &str) -> (r: Result<String, (bool, String)>)
    ensures
        match r {
            Ok(p) => rs256_payload(token@, pem@, iss@) == Ok::<Seq<char>, (bool, Seq<char>)>(p@),
            Err(e) => rs256_payload(token@, pem@, iss@) == Err::<Seq<char>, (bool, Seq<char>)>((e.0, e.1@)),
        },
{
    let key = match jsonwebtoken::DecodingKey::from_rsa_pem(pem.as_bytes()) {
        Ok(k) => k,
        Err(e) => return Err((true, e.to_string())),
    };
    let mut v = jsonwebtoken::Validation::new(jsonwebtoken::Algorithm::RS256);
    v.set_issuer(&[iss]);
    v.validate_exp = false;
    match jsonwebtoken::decode::<serde_json::Value>(token, &key, &v) {
        Ok(d) => Ok(d.claims.to_string()),
        Err(e) => Err((false, e.to_string())),
    }
}

/// Calls `serde_json::from_str` and reads the license claim fields. Claimed:
/// the result is `license_fields` of the text.
#[verifier::external_body]
fn read_license_fields(json: &str) -> (r: Option<(String, String, String, Option<String>, i64, i64, String)>)
    ensures
        match r {
            Some(t) => license_fields(json@) == Some((t.0@, t.1@, t.2@, opt_view(t.3), t.4, t.5, t.6@)),
            None => license_fields(json@) is None,
        },
{
    let v: serde_json::Value = serde_json::from_str(json).ok()?;
    let text = |k: &str| v[k].as_str().map(|x| x.to_string());
    let org = match &v["org_name"] {
        serde_json::Value::Null => None,
        serde_json::Value::String(x) => Some(x.clone()),
        _ => return None,
    };
    Some((text("iss")?, text("sub")?, text("plan")?, org, v["exp"].as_i64()?, v["iat"].as_i64()?, text("jti")?))
}

/// What verifying a license token's signature and issuer gives: its claims,
/// or the error message.
pub open spec fn decoded_claims(token: Seq<char>, pem: Seq<char>) -> Result<(Seq<char>, Seq<char>, Seq<char>, Option<Seq<char>>, i64, i64, Seq<char>), Seq<char>> {
    match rs256_payload(token, pem, issuer()) {
        Err(e) => if e.0 {
            Err("Failed to load license public key: "@ + e.1)
        } else {
            Err("Invalid license token: "@ + e.1)
        },
        Ok(p) => match license_fields(p) {
            None => Err("Invalid license token: malformed claims"@),
            Some(f) => Ok(f),
        },
    }
}

/// The claims as plain values.
pub open spec fn claims_fields(c: LicenseClaims) -> (Seq<char>, Seq<char>, Seq<char>, Option<Seq<char>>, i64, i64, Seq<char>) {
    (c.iss@, c.sub@, c.plan@, opt_view(c.org_name), c.exp, c.iat, c.jti@)
}

/// Verifies a license token's RS256 signature against the public key `pem`
/// and its issuer, without checking expiry, and gives its claims.
pub fn decode_claims(token: &str, pem: &str) -> (r: Result<LicenseClaims, String>)
    ensures
        match r {
            Ok(c) => decoded_claims(token@, pem@) == Ok::<(Seq<char>, Seq<char>, Seq<char>, Option<Seq<char>>, i64, i64, Seq<char>), Seq<char>>(claims_fields(c)),
            Err(m) => decoded_claims(token@, pem@) == Err::<(Seq<char>, Seq<char>, Seq<char>, Option<Seq<char>>, i64, i64, Seq<char>), Seq<char>>(m@),
        },
{
    let iss = "schedula-license";
    proof {
        reveal_strlit("schedula-license");
    }
    match rs256_verify(token, pem, iss) {
        Err(e) => {
            let mut m = if e.0 {
                String::from_str("Failed to load license public key: ")
            } else {
                String::from_str("Invalid license token: ")
            };
            proof {
                reveal_strlit("Failed to load license public key: ");
                reveal_strlit("Invalid license token: ");
            }
            m.append(e.1.as_str());
            Err(m)
        },
        Ok(p) => match read_license_fields(p.as_str()) {
            None => Err(String::from_str("Invalid license token: malformed claims")),
            Some(f) => {
                let c = LicenseClaims { iss: f.0, sub: f.1, plan: f.2, org_name: f.3, exp: f.4, iat: f.5, jti: f.6 };
                Ok(c)
            },
        },
    }
}

/// The hub's check of a stored license token: signature and issuer, then
/// expiry (an `exp` of 0 never expires).
pub fn validate_token(token: &str, pem: &str, now: i64) -> (r: Result<LicenseClaims, String>)
    ensures
        decoded_claims(token@, pem@) is Err ==> (r matches Err(m) && decoded_claims(token@, pem@) == Err::<(Seq<char>, Seq<char>, Seq<char>, Option<Seq<char>>, i64, i64, Seq<char>), Seq<char>>(m@)),
        decoded_claims(token@, pem@) matches Ok(f) ==> ((r is Ok <==> !is_expired(f.4, now))
            && (r matches Ok(c) ==> claims_fields(c) == f)
            && (r matches Err(m) ==> m@ == "License token has expired"@)),
{
    match decode_claims(token, pem) {
        Err(e) => Err(e),
        Ok(c) => check_expiry(c, now),
    }
}

// ── Refreshing license tokens ───────────────────────────────────────────────

/// What `jsonwebtoken::encode` gives for the claims (`iss`, `sub`, `plan`,
/// `org_name`, `exp`, `iat`, `jti`) signed RS256 with the private key `pem`
/// under the key id `kid`: the token, or the error text.
pub uninterp spec fn rs256_token(claims: (Seq<char>, Seq<char>, Seq<char>, Option<Seq<char>>, i64, i64, Seq<char>), pem: Seq<char>, kid: Seq<char>) -> Result<Seq<char>, Seq<char>>;

/// The instant `secs` (Unix seconds, UTC) written as RFC 3339 text by
/// `chrono`, or none when `chrono` cannot represent it.
pub uninterp spec fn rfc3339_text(secs: i64) -> Option<Seq<char>>;

/// The UTC calendar date (`YYYY-MM-DD`) of the instant `secs`, or none when
/// `chrono` cannot represent it.
pub uninterp spec fn utc_date_text(secs: i64) -> Option<Seq<char>>;

/// Calls `jsonwebtoken::EncodingKey::from_rsa_pem` and `jsonwebtoken::encode`
/// with an RS256 header carrying `kid`, on the claims written as a JSON
/// object (keys in alphabetical order). Claimed: the outcome is `rs256_token` of the claims, the key and
/// the key id (RS256 signing is deterministic).
#[verifier::external_body]
fn rs256_sign(c: LicenseClaims, private_pem: &str, kid: &str) -> (r: Result<String, String>)
    ensures
        match r {
            Ok(t) => rs256_token(claims_fields(c), private_pem@, kid@) == Ok::<Seq<char>, Seq<char>>(t@),
            Err(e) => rs256_token(claims_fields(c), private_pem@, kid@) == Err::<Seq<char>, Seq<char>>(e@),
        },
{
    let mut m = std::collections::BTreeMap::<&str, serde_json::Value>::new();
    m.insert("iss", c.iss.into());
    m.insert("sub", c.sub.into());
    m.insert("plan", c.plan.into());
    m.insert("org_name", c.org_name.into());
    m.insert("exp", c.exp.into());
    m.insert("iat", c.iat.into());
    m.insert("jti", c.jti.into());
    EncodingKey::from_rsa_pem(private_pem.as_bytes())
        .and_then(|k| encode(&Header { kid: Some(kid.into()), ..Header::new(Algorithm::RS256) }, &m, &k))
        .map_err(|e| e.to_string())
}

/// Calls `chrono::DateTime::from_timestamp(secs, 0)` and `to_rfc3339`.
/// Claimed: the outcome is `rfc3339_text` of `secs`.
#[verifier::external_body]
fn rfc3339_of(secs: i64) -> (r: Option<String>)
    ensures
        match r {
            Some(t) => rfc3339_text(secs) == Some(t@),
            None => rfc3339_text(secs) is None,
        },
{
    chrono::DateTime::from_timestamp(secs, 0).map(|d| d.to_rfc3339())
}

/// Calls `chrono::DateTime::from_timestamp(secs, 0)`, `date_naive` and
/// `to_string`. Claimed: the outcome is `utc_date_text` of `secs`.
#[verifier::external_body]
fn utc_date_of(secs: i64) -> (r: Option<String>)
    ensures
        match r {
            Some(t) => utc_date_text(secs) == Some(t@),
            None => utc_date_text(secs) is None,
        },
{
    chrono::DateTime::from_timestamp(secs, 0).map(|d| d.date_naive().to_string())
}

/// The date a daily key is filed under at the instant `now`: its UTC
/// calendar date (empty where `chrono` cannot represent `now`).
pub fn key_date(now: i64) -> (r: String)
    ensures
        r@ == (match utc_date_text(now) {
            Some(t) => t,
            None => Seq::<char>::empty(),
        }),
{
    match utc_date_of(now) {
        Some(t) => t,
        None => String::new(),
    }
}

/// The claims of the token that refreshes a license with claims `f` at
/// `now`.
pub open spec fn refreshed_fields(f: (Seq<char>, Seq<char>, Seq<char>, Option<Seq<char>>, i64, i64, Seq<char>), now: i64) -> (Seq<char>, Seq<char>, Seq<char>, Option<Seq<char>>, i64, i64, Seq<char>) {
    (issuer(), f.6, f.2, f.3, (now + REFRESH_LIFETIME) as i64, now, f.6)
}

/// The license server's answer to a refresh request: the HTTP status and
/// message of a refusal, or (new token, today's key, today, new expiry as
/// RFC 3339 text). A token whose signature, issuer or claims do not check
/// out (a public key that cannot be read included) is refused with 401; a
/// revoked or unknown license with 403; a missing daily key, or a failure
/// to sign, with 500. The new token carries the same license, plan and
/// organization, valid 48 hours from `now`, under the key id `schedula-v1`.
pub open spec fn refresh_reply_spec(
    token: Seq<char>,
    public_pem: Seq<char>,
    private_pem: Seq<char>,
    revoked: Option<i64>,
    daily_key: Option<Seq<char>>,
    today: Seq<char>,
    now: i64,
) -> Result<(Seq<char>, Seq<char>, Seq<char>, Seq<char>), (u16, Seq<char>)> {
    match rs256_payload(token, public_pem, issuer()) {
        Err(e) => Err((401u16, "Invalid token signature: "@ + e.1)),
        Ok(p) => match license_fields(p) {
            None => Err((401u16, "Invalid token signature: JSON error: malformed claims"@)),
            Some(f) => if revoked is None || revoked == Some(1i64) {
                Err((403u16, "License has been revoked"@))
            } else {
                match daily_key {
                    None => Err((500u16, "Daily key unavailable — contact support"@)),
                    Some(k) => match rs256_token(refreshed_fields(f, now), private_pem, "schedula-v1"@) {
                        Err(e) => Err((500u16, "Failed to sign refreshed token: "@ + e)),
                        Ok(t) => Ok((t, k, today, match rfc3339_text((now + REFRESH_LIFETIME) as i64) {
                            Some(x) => x,
                            None => Seq::<char>::empty(),
                        })),
                    },
                }
            },
        },
    }
}

/// A refresh extends the license by 48 hours: a successful answer is given
/// only for a license not revoked and with today's key, and carries the
/// token signed over the token's own license, plan and organization with
/// `iat` now and `exp` 48 hours (172800 seconds) after now, so it holds at
/// every instant up to then; its expiry text names that same instant.
pub proof fn law_refresh_extends_48_hours(
    token: Seq<char>,
    public_pem: Seq<char>,
    private_pem: Seq<char>,
    revoked: Option<i64>,
    daily_key: Option<Seq<char>>,
    today: Seq<char>,
    now: i64,
    t: (Seq<char>, Seq<char>, Seq<char>, Seq<char>),
)
    requires
        now + 2 * 86400 <= i64::MAX,
        refresh_reply_spec(token, public_pem, private_pem, revoked, daily_key, today, now)
            == Ok::<(Seq<char>, Seq<char>, Seq<char>, Seq<char>), (u16, Seq<char>)>(t),
    ensures
        decoded_claims(token, public_pem) matches Ok(f) && rs256_token(
            (issuer(), f.6, f.2, f.3, (now + 2 * 86400) as i64, now, f.6),
            private_pem,
            "schedula-v1"@,
        ) == Ok::<Seq<char>, Seq<char>>(t.0),
        forall|at: i64| now <= at <= now + 2 * 86400 ==> !#[trigger] is_expired((now + 2 * 86400) as i64, at),
        t.3 == (match rfc3339_text((now + 2 * 86400) as i64) {
            Some(x) => x,
            None => Seq::<char>::empty(),
        }),
        revoked matches Some(v) && v != 1,
        daily_key == Some(t.1),
        t.2 == today,
{
}

/// A refresh answer as plain values.
pub open spec fn reply_view(r: Result<(String, String, String, String), (u16, String)>) -> Result<(Seq<char>, Seq<char>, Seq<char>, Seq<char>), (u16, Seq<char>)> {
    match r {
        Ok(t) => Ok((t.0@, t.1@, t.2@, t.3@)),
        Err(e) => Err((e.0, e.1@)),
    }
}

/// Answers a refresh request, given the stored revocation flag of the
/// token's license (none when unknown) and today's daily key (none when
/// missing).
pub fn refresh_reply(
    token: &str,
    public_pem: &str,
    private_pem: &str,
    revoked: Option<i64>,
    daily_key: Option<String>,
    today: &str,
    now: i64,
) -> (r: Result<(String, String, String, String), (u16, String)>)
    requires
        now + REFRESH_LIFETIME <= i64::MAX,
    ensures
        reply_view(r) == refresh_reply_spec(token@, public_pem@, private_pem@, revoked, opt_view(daily_key), today@, now),
{
    let iss = "schedula-license";
    proof {
        reveal_strlit("schedula-license");
        reveal_strlit("schedula-v1");
        reveal_strlit("Invalid token signature: ");
        reveal_strlit("Failed to sign refreshed token: ");
    }
    let claims = match rs256_verify(token, public_pem, iss) {
        Err(e) => {
            let mut m = String::from_str("Invalid token signature: ");
            m.append(e.1.as_str());
            return Err((401, m));
        },
        Ok(p) => match read_license_fields(p.as_str()) {
            None => return Err((401, String::from_str("Invalid token signature: JSON error: malformed claims"))),
            Some(f) => LicenseClaims { iss: f.0, sub: f.1, plan: f.2, org_name: f.3, exp: f.4, iat: f.5, jti: f.6 },
        },
    };
    if revoked_for_refresh(revoked) {
        return Err((403, String::from_str("License has been revoked")));
    }
    let key = match daily_key {
        None => return Err((500, String::from_str("Daily key unavailable — contact support"))),
        Some(k) => k,
    };
    let fresh = refreshed_claims(&claims, now);
    proof {
        assert(claims_fields(fresh) == refreshed_fields(claims_fields(claims), now));
    }
    let exp = fresh.exp;
    let signed = match rs256_sign(fresh, private_pem, "schedula-v1") {
        Err(e) => {
            let mut m = String::from_str("Failed to sign refreshed token: ");
            m.append(e.as_str());
            return Err((500, m));
        },
        Ok(t) => t,
    };
    let expires_at = match rfc3339_of(exp) {
        Some(x) => x,
        None => String::new(),
    };
    Ok((signed, key, String::from_str(today), expires_at))
}

/// The plan named in a license token whose signature and issuer check out,
/// expired or not (the grace period keeps it).
pub fn decode_plan_ignoring_expiry(token: &str, pem: &str) -> (r: Option<String>)
    ensures
        match decoded_claims(token@, pem@) {
            Ok(f) => r matches Some(p) && p@ == f.2,
            Err(_) => r is None,
        },
{
    match decode_claims(token, pem) {
        Ok(c) => Some(c.plan),
        Err(_) => None,
    }
}

/// Outcome of validating a verified token on the license server.
#[derive(PartialEq, Eq, Structural, Clone, Copy, Debug)]
pub enum TokenStatus {
    Valid,
    Expired,
    Revoked,
}

/// A verified token is expired when past its expiry, else revoked when the
/// license is marked revoked, else valid.
pub fn token_status(exp: i64, now: i64, revoked: bool) -> (s: TokenStatus)
    ensures
        s == (if is_expired(exp, now) {
            TokenStatus::Expired
        } else if revoked {
            TokenStatus::Revoked
        } else {
            TokenStatus::Valid
        }),
{
    if token_expired(exp, now) {
        TokenStatus::Expired
    } else if revoked {
        TokenStatus::Revoked
    } else {
        TokenStatus::Valid
    }
}

/// The message a validation answer carries for a status.
pub fn status_message(s: TokenStatus) -> (m: Option<&'static str>)
    ensures
        match s {
            TokenStatus::Valid => m is None,
            TokenStatus::Expired => m matches Some(t) && t@ == "Token expired"@,
            TokenStatus::Revoked => m matches Some(t) && t@ == "License has been revoked"@,
        },
{
    match s {
        TokenStatus::Valid => None,
        TokenStatus::Expired => Some("Token expired"),
        TokenStatus::Revoked => Some("License has been revoked"),
    }
}

/// Whether a validation treats the license as revoked: its stored flag is
/// 1 (an unknown license is not revoked here).
pub fn revoked_for_validation(flag: Option<i64>) -> (b: bool)
    ensures
        b == (flag == Some(1i64)),
{
    match flag {
        Some(v) => v == 1,
        None => false,
    }
}

/// Whether a refresh is refused as revoked: the stored flag is 1, or the
/// license is unknown.
pub fn revoked_for_refresh(flag: Option<i64>) -> (b: bool)
    ensures
        b == (flag is None || flag == Some(1i64)),
{
    match flag {
        Some(v) => v == 1,
        None => true,
    }
}

// ── The hub's plan ───────────────────────────────────────────────────────────

/// What checking the stored token found.
pub enum TokenCheck {
    /// Valid and not expired, with its plan.
    Valid(String),
    /// Verified but expired.
    Expired,
    /// Not a valid token.
    Invalid,
}

/// The plan a hub runs on.
pub enum PlanChoice {
    Plan(String),
    Free,
}

/// The plan of a hub: the token's plan while it is valid; after it expires,
/// the plan it carried (read without the expiry check) while the last
/// successful refresh is at most `GRACE_DAYS` days old; else the free plan.
pub open spec fn plan_choice_spec(
    check: TokenCheck,
    days_since_refresh: Option<i64>,
    plan_ignoring_expiry: Option<Seq<char>>,
) -> Option<Seq<char>> {
    match check {
        TokenCheck::Valid(p) => Some(p@),
        TokenCheck::Expired => match days_since_refresh {
            Some(d) => if d <= GRACE_DAYS { plan_ignoring_expiry } else { None },
            None => None,
        },
        TokenCheck::Invalid => None,
    }
}

/// The plan as an optional text (`None` for the free plan).
pub open spec fn choice_view(c: PlanChoice) -> Option<Seq<char>> {
    match c {
        PlanChoice::Plan(p) => Some(p@),
        PlanChoice::Free => None,
    }
}

/// The plan a hub runs on, from its stored token.
pub fn effective_plan_choice(
    check: TokenCheck,
    days_since_refresh: Option<i64>,
    plan_ignoring_expiry: Option<String>,
) -> (c: PlanChoice)
    ensures
        choice_view(c) == plan_choice_spec(check, days_since_refresh, opt_view(plan_ignoring_expiry)),
{
    match check {
        TokenCheck::Valid(p) => PlanChoice::Plan(p),
        TokenCheck::Expired => match days_since_refresh {
            Some(d) => if d <= GRACE_DAYS {
                match plan_ignoring_expiry {
                    Some(p) => PlanChoice::Plan(p),
                    None => PlanChoice::Free,
                }
            } else {
                PlanChoice::Free
            },
            None => PlanChoice::Free,
        },
        TokenCheck::Invalid => PlanChoice::Free,
    }
}

/// RFC 3339 text parsed by `chrono`: the instant it names, in whole Unix
/// seconds (rounded down), or none when the text is not RFC 3339.
pub uninterp spec fn rfc3339_seconds(text: Seq<char>) -> Option<i64>;

/// Calls `chrono::DateTime::parse_from_rfc3339` and `timestamp`. Claimed:
/// the outcome is `rfc3339_seconds` of the text.
#[verifier::external_body]
fn parse_rfc3339(text: &str) -> (r: Option<i64>)
    ensures
        r == rfc3339_seconds(text@),
{
    chrono::DateTime::parse_from_rfc3339(text).ok().map(|d| d.timestamp())
}

/// Whole days (rounded toward zero) from the instant written as RFC 3339
/// text `last` to `now`; none when there is no such text or it cannot be
/// read.
pub open spec fn days_since_spec(last: Option<Seq<char>>, now: i64) -> Option<int> {
    match last {
        None => None,
        Some(t) => match rfc3339_seconds(t) {
            None => None,
            Some(s) => {
                let x = now - s;
                Some(if x >= 0 { x / 86400 } else { -((-x) / 86400) })
            },
        },
    }
}

/// The plan a hub runs on from its newest active or grace license token,
/// last refreshed at `last` (RFC 3339): the token's plan while it verifies
/// and has not expired; once expired, its plan while the last refresh is at
/// most `GRACE_DAYS` days old; otherwise none (the free plan).
pub open spec fn effective_plan_spec(token: Seq<char>, pem: Seq<char>, last: Option<Seq<char>>, now: i64) -> Option<Seq<char>> {
    match decoded_claims(token, pem) {
        Err(_) => None,
        Ok(f) => if !is_expired(f.4, now) {
            Some(f.2)
        } else {
            match days_since_spec(last, now) {
                Some(d) => if d <= GRACE_DAYS { Some(f.2) } else { None },
                None => None,
            }
        },
    }
}

/// The plan a hub runs on from its stored token and the time of its last
/// successful refresh; none for the free plan.
pub fn effective_plan_of(token: &str, pem: &str, last_validated_at: Option<String>, now: i64) -> (r: Option<String>)
    ensures
        opt_view(r) == effective_plan_spec(token@, pem@, opt_view(last_validated_at), now),
{
    let decoded = decode_claims(token, pem);
    let check = match &decoded {
        Err(_) => TokenCheck::Invalid,
        Ok(c) => if token_expired(c.exp, now) {
            TokenCheck::Expired
        } else {
            TokenCheck::Valid(c.plan.clone())
        },
    };
    let days: Option<i64> = match &last_validated_at {
        None => None,
        Some(t) => match parse_rfc3339(t.as_str()) {
            None => None,
            Some(s) => {
                let x: i128 = (now as i128) - (s as i128);
                let d: i128 = if x >= 0 { x / 86400 } else { -((-x) / 86400) };
                assert(-0x1_0000_0000_0000_0000 < x < 0x1_0000_0000_0000_0000);
                assert(i64::MIN <= d <= i64::MAX);
                Some(d as i64)
            },
        },
    };
    let grace = match decoded {
        Ok(c) => Some(c.plan),
        Err(_) => None,
    };
    match effective_plan_choice(check, days, grace) {
        PlanChoice::Plan(p) => Some(p),
        PlanChoice::Free => None,
    }
}

/// Whole days until a license expires, never negative (Rust division,
/// rounding toward zero).
pub open spec fn days_left_spec(expires: i64, now: i64) -> int {
    let secs = expires - now;
    let days = if secs >= 0 { secs / 86400 } else { -((-secs) / 86400) };
    if days > 0 { days } else { 0 }
}

/// Whole days until a license expires.
pub fn days_until_expiry(expires: i64, now: i64) -> (d: i64)
    requires
        i64::MIN <= expires - now <= i64::MAX,
    ensures
        d == days_left_spec(expires, now),
{
    let secs: i128 = (expires as i128) - (now as i128);
    let days: i128 = if secs >= 0 { secs / 86400 } else { -((-secs) / 86400) };
    if days > 0 {
        days as i64
    } else {
        0
    }
}

// ── Activation codes ─────────────────────────────────────────────────────────

/// Upper-case hexadecimal digit of `d < 16`.
pub open spec fn hex_digit(d: int) -> char {
    if d < 10 {
        ((48 + d) as u8) as char
    } else {
        ((55 + d) as u8) as char
    }
}

/// A byte as two upper-case hexadecimal digits.
pub open spec fn hex_byte(b: u8) -> Seq<char> {
    seq![hex_digit(b as int / 16), hex_digit(b as int % 16)]
}

/// `SCHED-XXXX-XXXX-XXXX-XXXX`: the eight bytes in upper-case hexadecimal,
/// in groups of two bytes.
pub open spec fn activation_code_text(b: Seq<u8>) -> Seq<char> {
    "SCHED-"@ + hex_byte(b[0]) + hex_byte(b[1]) + "-"@ + hex_byte(b[2]) + hex_byte(b[3]) + "-"@ + hex_byte(b[4])
        + hex_byte(b[5]) + "-"@ + hex_byte(b[6]) + hex_byte(b[7])
}

/// The upper-case hexadecimal digit of `d < 16`, as text.
fn hex_str(d: u8) -> (s: &'static str)
    requires
        d < 16,
    ensures
        s@ == seq![hex_digit(d as int)],
{
    if d == 0 {
        proof { reveal_strlit("0"); }
        "0"
    } else if d == 1 {
        proof { reveal_strlit("1"); }
        "1"
    } else if d == 2 {
        proof { reveal_strlit("2"); }
        "2"
    } else if d == 3 {
        proof { reveal_strlit("3"); }
        "3"
    } else if d == 4 {
        proof { reveal_strlit("4"); }
        "4"
    } else if d == 5 {
        proof { reveal_strlit("5"); }
        "5"
    } else if d == 6 {
        proof { reveal_strlit("6"); }
        "6"
    } else if d == 7 {
        proof { reveal_strlit("7"); }
        "7"
    } else if d == 8 {
        proof { reveal_strlit("8"); }
        "8"
    } else if d == 9 {
        proof { reveal_strlit("9"); }
        "9"
    } else if d == 10 {
        proof { reveal_strlit("A"); }
        "A"
    } else if d == 11 {
        proof { reveal_strlit("B"); }
        "B"
    } else if d == 12 {
        proof { reveal_strlit("C"); }
        "C"
    } else if d == 13 {
        proof { reveal_strlit("D"); }
        "D"
    } else if d == 14 {
        proof { reveal_strlit("E"); }
        "E"
    } else {
        proof { reveal_strlit("F"); }
        "F"
    }
}

/// Appends a byte as two upper-case hexadecimal digits.
fn push_hex(s: &mut String, b: u8)
    ensures
        final(s)@ == old(s)@ + hex_byte(b),
{
    s.append(hex_str(b / 16));
    s.append(hex_str(b % 16));
    assert(final(s)@ =~= old(s)@ + hex_byte(b));
}

/// The activation code of eight bytes.
pub fn activation_code(bytes: &Vec<u8>) -> (r: String)
    requires
        bytes@.len() == 8,
    ensures
        r@ == activation_code_text(bytes@),
{
    let mut r = String::from_str("SCHED-");
    push_hex(&mut r, bytes[0]);
    push_hex(&mut r, bytes[1]);
    r.append("-");
    push_hex(&mut r, bytes[2]);
    push_hex(&mut r, bytes[3]);
    r.append("-");
    push_hex(&mut r, bytes[4]);
    push_hex(&mut r, bytes[5]);
    r.append("-");
    push_hex(&mut r, bytes[6]);
    push_hex(&mut r, bytes[7]);
    assert(r@ =~= activation_code_text(bytes@));
    r
}

/// Eight random bytes from `rand::thread_rng()` (`Rng::gen::<[u8; 8]>`).
/// Only the length is stated: the bytes are chance.
#[verifier::external_body]
fn random_code_bytes() -> (v: Vec<u8>)
    ensures
        v@.len() == 8,
{
    rand::Rng::gen::<[u8; 8]>(&mut rand::thread_rng()).to_vec()
}

/// A short single-use activation code from eight random bytes
/// (64 bits of entropy).
pub fn generate_activation_code() -> (r: String)
    ensures
        exists|b: Seq<u8>| b.len() == 8 && r@ == activation_code_text(b),
{
    let bytes = random_code_bytes();
    activation_code(&bytes)
}

// ── Redeeming activation codes ──────────────────────────────────────────────

/// `str::to_uppercase` of a text.
pub uninterp spec fn uppercase_of(text: Seq<char>) -> Seq<char>;

/// Calls `str::to_uppercase`. Claimed: the result is `uppercase_of` the
/// text.
#[verifier::external_body]
fn to_upper(text: &str) -> (r: String)
    ensures
        r@ == uppercase_of(text@),
{
    text.to_uppercase()
}

/// A submitted activation code as it is looked up: trimmed, upper-case.
pub fn normalize_activation_code(raw: &str) -> (r: String)
    ensures
        r@ == uppercase_of(trim(raw@)),
{
    let t = trim_str(raw);
    to_upper(t.as_str())
}

/// Why an activation code cannot be redeemed.
#[derive(PartialEq, Eq, Structural, Clone, Copy, Debug)]
pub enum ActivationError {
    /// No such code (404).
    Unknown,
    /// The code was redeemed before (410).
    Used,
    /// The code's 30 minutes have passed (410).
    Expired,
}

/// What redeeming a code gives (see `check_activation`).
pub open spec fn activation_check(found: bool, used: bool, expired: Option<bool>) -> Result<(), ActivationError> {
    if !found {
        Err(ActivationError::Unknown)
    } else if used {
        Err(ActivationError::Used)
    } else if expired == Some(true) {
        Err(ActivationError::Expired)
    } else {
        Ok(())
    }
}

/// The stored record of an activation code: when it was redeemed, and the
/// license it was redeemed for.
pub struct CodeRecord {
    pub used_at: Option<String>,
    pub jti: Option<String>,
}

/// Burns a redeemed code: records when it was used and the license issued
/// for it.
pub fn burn_code(rec: &mut CodeRecord, now: String, jti: String)
    ensures
        final(rec).used_at matches Some(t) && t@ == now@,
        final(rec).jti matches Some(j) && j@ == jti@,
{
    rec.used_at = Some(now);
    rec.jti = Some(jti);
}

/// Activation codes are single-use: once a code is burnt, redeeming it
/// again is refused as used, whatever its expiry.
pub proof fn lemma_code_single_use(rec: CodeRecord, expired: Option<bool>)
    requires
        rec.used_at is Some,
    ensures
        activation_check(true, rec.used_at is Some, expired) == Err::<(), ActivationError>(ActivationError::Used),
{
}

/// The license server's checks on a code: it must exist, be unused and not
/// be past its expiry (`expired` is `None` when the stored expiry could not
/// be read, which does not stop redemption).
pub fn check_activation(found: bool, used: bool, expired: Option<bool>) -> (r: Result<(), ActivationError>)
    ensures
        r == activation_check(found, used, expired),
{
    if !found {
        Err(ActivationError::Unknown)
    } else if used {
        Err(ActivationError::Used)
    } else {
        match expired {
            Some(true) => Err(ActivationError::Expired),
            _ => Ok(()),
        }
    }
}

/// The HTTP status and message of an activation error.
pub fn activation_error_text(e: ActivationError) -> (r: (u16, &'static str))
    ensures
        r.0 == (match e {
            ActivationError::Unknown => 404u16,
            _ => 410u16,
        }),
        r.1@ == (match e {
            ActivationError::Unknown => "Invalid activation code"@,
            ActivationError::Used => "Activation code has already been used"@,
            ActivationError::Expired =>
                "Activation code has expired. Request a new one from your confirmation email or contact support."@,
        }),
{
    match e {
        ActivationError::Unknown => (404, "Invalid activation code"),
        ActivationError::Used => (410, "Activation code has already been used"),
        ActivationError::Expired => (
            410,
            "Activation code has expired. Request a new one from your confirmation email or contact support.",
        ),
    }
}

/// The message a hub shows when the license server refuses a code: for
/// 404 a fixed hint; for 410 the server's error or "Activation code is
/// expired or already used."; for any other failure the server's error or
/// "Activation failed". `None` for a success status (200–299).
pub fn activation_reply_error(status: u16, server_error: Option<String>) -> (r: Option<String>)
    ensures
        (200 <= status <= 299) ==> r is None,
        status == 404 ==> (r matches Some(m) && m@ == "Invalid activation code — check for typos and try again."@),
        status == 410 ==> (r matches Some(m) && m@ == (match server_error {
            Some(e) => e@,
            None => "Activation code is expired or already used."@,
        })),
        (status != 404 && status != 410 && !(200 <= status <= 299)) ==> (r matches Some(m) && m@ == (
        match server_error {
            Some(e) => e@,
            None => "Activation failed"@,
        })),
{
    if status == 404 {
        return Some(String::from_str("Invalid activation code — check for typos and try again."));
    }
    if status == 410 {
        return match server_error {
            Some(e) => Some(e),
            None => Some(String::from_str("Activation code is expired or already used.")),
        };
    }
    if !(200 <= status && status <= 299) {
        return match server_error {
            Some(e) => Some(e),
            None => Some(String::from_str("Activation failed")),
        };
    }
    None
}

// ── The hub's daily refresh ──────────────────────────────────────────────────

// ── Waiting for a license after checkout ─────────────────────────────────────

/// Fetches made for a device's license after checkout, one every 30
/// seconds (60 minutes in all).
pub const MAX_POLLS: u32 = 120;

/// What the polling for a device's license does next.
pub enum PollStep {
    /// Wait 30 seconds, then fetch again.
    Wait,
    /// The license is active: announce it and stop.
    Announce,
    /// The time is up: stop without a license.
    GiveUp,
}

/// The next step after fetch number `attempt` (from 1) found a license or
/// not: announce a found license; else wait and fetch again until
/// `MAX_POLLS` fetches have been made, then give up.
pub fn poll_next(attempt: u32, found: bool) -> (s: PollStep)
    requires
        1 <= attempt <= MAX_POLLS,
    ensures
        found ==> s is Announce,
        !found && attempt < MAX_POLLS ==> s is Wait,
        !found && attempt == MAX_POLLS ==> s is GiveUp,
{
    if found {
        PollStep::Announce
    } else if attempt < MAX_POLLS {
        PollStep::Wait
    } else {
        PollStep::GiveUp
    }
}

/// What a refresh call to the license server came back with.
#[derive(PartialEq, Eq, Structural, Clone, Copy, Debug)]
pub enum RefreshOutcome {
    /// The hub holds no active license.
    NoToken,
    /// A new token and today's key arrived.
    Refreshed,
    /// The server answered success with a body that could not be read.
    BadResponse,
    /// The server refused, with this HTTP status.
    Rejected(u16),
    /// The server could not be reached.
    Unreachable,
}

/// What the hub does after a refresh call.
#[derive(PartialEq, Eq, Structural, Clone, Copy, Debug)]
pub enum RefreshAction {
    /// Nothing to refresh.
    Skip,
    /// Store the new token and key, and recompute the plan.
    Store,
    /// Mark the license revoked and drop to the free plan at once.
    Revoke,
    /// Keep everything as it is.
    Keep,
    /// Enter the grace period (or expire the license after seven days).
    Grace,
}

/// The hub's decision after a refresh call: a refused license (401 or 403)
/// is revoked at once; an unreachable server starts the grace period.
pub fn refresh_action(o: RefreshOutcome) -> (a: RefreshAction)
    ensures
        a == (match o {
            RefreshOutcome::NoToken => RefreshAction::Skip,
            RefreshOutcome::Refreshed => RefreshAction::Store,
            RefreshOutcome::BadResponse => RefreshAction::Keep,
            RefreshOutcome::Rejected(code) => if code == 401 || code == 403 {
                RefreshAction::Revoke
            } else {
                RefreshAction::Keep
            },
            RefreshOutcome::Unreachable => RefreshAction::Grace,
        }),
{
    match o {
        RefreshOutcome::NoToken => RefreshAction::Skip,
        RefreshOutcome::Refreshed => RefreshAction::Store,
        RefreshOutcome::BadResponse => RefreshAction::Keep,
        RefreshOutcome::Rejected(code) => if code == 401 || code == 403 {
            RefreshAction::Revoke
        } else {
            RefreshAction::Keep
        },
        RefreshOutcome::Unreachable => RefreshAction::Grace,
    }
}

/// Whether a refresh counts as successful.
pub fn refresh_succeeded(a: RefreshAction) -> (b: bool)
    ensures
        b == (a == RefreshAction::Store),
{
    match a {
        RefreshAction::Store => true,
        _ => false,
    }
}

/// What the grace logic does to one stored license when the license server
/// cannot be reached.
#[derive(PartialEq, Eq, Structural, Clone, Copy, Debug)]
pub enum GraceAction {
    /// The license was last validated more than seven days ago: expire it.
    Expire,
    /// The license is active and was validated within seven days: run it
    /// in grace.
    Grace,
    /// Leave the license as it is.
    Keep,
}

/// The grace logic for one license with status `status`, `stale` when it
/// was last validated more than seven days ago: an active or grace license
/// that is stale expires; an active one that is not moves to grace; any
/// other is left as it is.
pub fn grace_or_expire(status: &str, stale: bool) -> (a: GraceAction)
    ensures
        a == (if status@ == "active"@ || status@ == "grace"@ {
            if stale {
                GraceAction::Expire
            } else if status@ == "active"@ {
                GraceAction::Grace
            } else {
                GraceAction::Keep
            }
        } else {
            GraceAction::Keep
        }),
{
    let active = str_eq(status, "active");
    let grace = str_eq(status, "grace");
    if active || grace {
        if stale {
            GraceAction::Expire
        } else if active {
            GraceAction::Grace
        } else {
            GraceAction::Keep
        }
    } else {
        GraceAction::Keep
    }
}

} // verus!
