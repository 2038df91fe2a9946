//! Sessions: the claims of a session token, the desktop app's signed-in
//! user, and the status of the hub the desktop app can start.

use vstd::prelude::*;
use crate::models::SessionPayload;
use crate::text::{decimal, int_to_string, str_eq, after_prefix, strip_prefix_str};

verus! {

/// The claims of a session token.
pub struct Claims {
    pub sub: String,
    pub username: String,
    pub display_name: String,
    pub role: String,
    pub org_id: Option<i64>,
    pub exp: usize,
    pub iat: usize,
}

/// Lifetime of a session token: 24 hours.
pub const SESSION_LIFETIME: i64 = 86400;

/// The claims of a token for a session opened at `now` (Unix seconds): the
/// user id in decimal as subject, the session's names, role and
/// organization, issued now and valid 24 hours.
pub fn session_claims(session: &SessionPayload, now: i64) -> (c: Claims)
    requires
        now + SESSION_LIFETIME <= i64::MAX,
    ensures
        c.sub@ == decimal(session.user_id as int),
        c.username@ == session.username@,
        c.display_name@ == session.display_name@,
        c.role@ == session.role@,
        c.org_id == session.org_id,
        c.exp == (now + SESSION_LIFETIME) as usize,
        c.iat == now as usize,
{
    Claims {
        sub: int_to_string(session.user_id),
        username: session.username.clone(),
        display_name: session.display_name.clone(),
        role: session.role.clone(),
        org_id: session.org_id,
        exp: (now + SESSION_LIFETIME) as usize,
        iat: now as usize,
    }
}

/// What `jsonwebtoken::decode` gives for an HS256 token checked against the
/// secret, with the default validation but expiry not checked: the claims
/// as JSON text, or the error's text.
pub uninterp spec fn hs256_payload(token: Seq<char>, secret: Seq<char>) -> Result<Seq<char>, Seq<char>>;

/// The session claims read from their JSON text: `sub`, `username`,
/// `display_name`, `role`, `org_id`, `exp`, `iat`; none when a field is
/// missing or of the wrong type (`org_id` may be missing or null, and then
/// reads as none).
pub uninterp spec fn session_fields(json: Seq<char>) -> Option<(Seq<char>, Seq<char>, Seq<char>, Seq<char>, Option<i64>, u64, u64)>;

/// What `str::parse::<i64>` gives for a text: the number, or the error's text.
pub uninterp spec fn i64_parse(text: Seq<char>) -> Result<i64, Seq<char>>;

/// What `jsonwebtoken::encode` gives for the session claims (default HS256
/// header, key from the secret's bytes): the token, or the error's text.
pub uninterp spec fn hs256_token(
    claims: (Seq<char>, Seq<char>, Seq<char>, Seq<char>, Option<i64>, usize, usize),
    secret: Seq<char>,
) -> Result<Seq<char>, Seq<char>>;

/// Calls `jsonwebtoken::decode` (HS256, key from the secret's bytes,
/// default validation with expiry not validated) into a JSON value. Claimed:
/// the outcome is `hs256_payload` of the arguments.
#[verifier::external_body]
fn hs256_verify(token: &str, secret: &str) -> (r: Result<String, String>)
    ensures
        match r {
            Ok(p) => hs256_payload(token@, secret@) == Ok::<Seq<char>, Seq<char>>(p@),
            Err(e) => hs256_payload(token@, secret@) == Err::<Seq<char>, Seq<char>>(e@),
        },
{
    let mut v = jsonwebtoken::Validation::default();
    v.validate_exp = false;
    let key = jsonwebtoken::DecodingKey::from_secret(secret.as_bytes());
    match jsonwebtoken::decode::<serde_json::Value>(token, &key, &v) {
        Ok(d) => Ok(d.claims.to_string()),
        Err(e) => Err(e.to_string()),
    }
}

/// Calls `serde_json::from_str` and reads the session claim fields.
/// Claimed: the result is `session_fields` of the text.
#[verifier::external_body]
fn read_session_fields(json: &str) -> (r: Option<(String, String, String, String, Option<i64>, u64, u64)>)
    ensures
        match r {
            Some(t) => session_fields(json@) == Some((t.0@, t.1@, t.2@, t.3@, t.4, t.5, t.6)),
            None => session_fields(json@) is None,
        },
{
    let v: serde_json::Value = serde_json::from_str(json).ok()?;
    let text = |k: &str| v[k].as_str().map(|x| x.to_string());
    let org = match &v["org_id"] {
        serde_json::Value::Null => None,
        n => Some(n.as_i64()?),
    };
    Some((text("sub")?, text("username")?, text("display_name")?, text("role")?, org, v["exp"].as_u64()?, v["iat"].as_u64()?))
}

/// Calls `str::parse::<i64>`. Claimed: the outcome is `i64_parse` of the
/// text, the error as its text.
#[verifier::external_body]
fn parse_i64(text: &str) -> (r: Result<i64, String>)
    ensures
        match r {
            Ok(n) => i64_parse(text@) == Ok::<i64, Seq<char>>(n),
            Err(e) => i64_parse(text@) == Err::<i64, Seq<char>>(e@),
        },
{
    text.parse::<i64>().map_err(|e| e.to_string())
}

/// Calls `jsonwebtoken::encode` with the default header and the secret's
/// bytes as key, on the claims written as a JSON object. Claimed: the
/// outcome is `hs256_token` of the claims and the secret.
#[verifier::external_body]
fn hs256_sign(c: &Claims, secret: &str) -> (r: Result<String, String>)
    ensures
        match r {
            Ok(t) => hs256_token((c.sub@, c.username@, c.display_name@, c.role@, c.org_id, c.exp, c.iat), secret@) == Ok::<Seq<char>, Seq<char>>(t@),
            Err(e) => hs256_token((c.sub@, c.username@, c.display_name@, c.role@, c.org_id, c.exp, c.iat), secret@) == Err::<Seq<char>, Seq<char>>(e@),
        },
{
    let mut m = serde_json::Map::new();
    m.insert("sub".into(), c.sub.clone().into());
    m.insert("username".into(), c.username.clone().into());
    m.insert("display_name".into(), c.display_name.clone().into());
    m.insert("role".into(), c.role.clone().into());
    m.insert("org_id".into(), c.org_id.into());
    m.insert("exp".into(), c.exp.into());
    m.insert("iat".into(), c.iat.into());
    jsonwebtoken::encode(&jsonwebtoken::Header::default(), &m, &jsonwebtoken::EncodingKey::from_secret(secret.as_bytes()))
        .map_err(|e| e.to_string())
}

/// A session token for a session opened at `now`: the claims of
/// `session_claims` signed with the secret (HS256).
pub fn encode_jwt(session: &SessionPayload, secret: &str, now: i64) -> (r: Result<String, String>)
    requires
        0 <= now,
        now + SESSION_LIFETIME <= i64::MAX,
    ensures
        ({
            let fields = (
                decimal(session.user_id as int),
                session.username@,
                session.display_name@,
                session.role@,
                session.org_id,
                (now + SESSION_LIFETIME) as usize,
                now as usize,
            );
            match r {
                Ok(t) => hs256_token(fields, secret@) == Ok::<Seq<char>, Seq<char>>(t@),
                Err(e) => hs256_token(fields, secret@) == Err::<Seq<char>, Seq<char>>(e@),
            }
        }),
{
    let c = session_claims(session, now);
    hs256_sign(&c, secret)
}

/// Tokens stay valid this many seconds past their expiry (the default
/// leeway of `jsonwebtoken`'s validation).
pub const TOKEN_LEEWAY: u64 = 60;

/// What checking a session token at `now` gives: the session it names, or
/// the error message.
pub open spec fn decoded_session(token: Seq<char>, secret: Seq<char>, now: u64) -> Result<(i64, Seq<char>, Seq<char>, Seq<char>, Option<i64>), Seq<char>> {
    match hs256_payload(token, secret) {
        Err(e) => Err(e),
        Ok(p) => match session_fields(p) {
            None => Err("JSON error: malformed claims"@),
            Some(f) => if f.5 + TOKEN_LEEWAY < now {
                Err("ExpiredSignature"@)
            } else {
                match i64_parse(f.0) {
                    Err(e) => Err(e),
                    Ok(id) => Ok((id, f.1, f.2, f.3, f.4)),
                }
            },
        },
    }
}

/// Checks a session token at `now` (Unix seconds): its HS256 signature
/// against the secret, its expiry (with a minute's leeway), and gives the
/// session it names.
pub fn decode_jwt(token: &str, secret: &str, now: u64) -> (r: Result<SessionPayload, String>)
    ensures
        match r {
            Ok(s) => decoded_session(token@, secret@, now) == Ok::<(i64, Seq<char>, Seq<char>, Seq<char>, Option<i64>), Seq<char>>(
                (s.user_id, s.username@, s.display_name@, s.role@, s.org_id),
            ),
            Err(m) => decoded_session(token@, secret@, now) == Err::<(i64, Seq<char>, Seq<char>, Seq<char>, Option<i64>), Seq<char>>(m@),
        },
{
    let p = match hs256_verify(token, secret) {
        Ok(p) => p,
        Err(e) => return Err(e),
    };
    let f = match read_session_fields(p.as_str()) {
        Some(f) => f,
        None => return Err(String::from_str("JSON error: malformed claims")),
    };
    if (f.5 as u128) + (TOKEN_LEEWAY as u128) < (now as u128) {
        return Err(String::from_str("ExpiredSignature"));
    }
    match parse_i64(f.0.as_str()) {
        Err(e) => Err(e),
        Ok(id) => Ok(SessionPayload { user_id: id, username: f.1, display_name: f.2, role: f.3, org_id: f.4 }),
    }
}

/// The desktop app's signed-in user, if any.
pub struct SessionState {
    pub current: Option<SessionPayload>,
}

/// What asking for the signed-in user answers while `current` is signed in:
/// that user, or "Not logged in".
pub open spec fn session_answer(current: Option<SessionPayload>) -> Result<SessionPayload, Seq<char>> {
    match current {
        Some(s) => Ok(s),
        None => Err("Not logged in"@),
    }
}

/// Sessions live in memory only: `login(s)` leaves `s` signed in, so asking
/// for the signed-in user gives `s`; `logout` leaves no one signed in, so the
/// question is refused with "Not logged in".
pub proof fn lemma_session_read_after_write(s: SessionPayload)
    ensures
        session_answer(Some(s)) == Ok::<SessionPayload, Seq<char>>(s),
        session_answer(None) == Err::<SessionPayload, Seq<char>>("Not logged in"@),
{
}

impl SessionState {
    /// No one is signed in.
    pub fn new() -> (s: SessionState)
        ensures
            s.current is None,
    {
        SessionState { current: None }
    }

    /// Signs a user in, replacing any earlier session.
    pub fn login(&mut self, session: SessionPayload)
        ensures
            final(self).current == Some(session),
    {
        self.current = Some(session);
    }

    /// Signs the user out.
    pub fn logout(&mut self)
        ensures
            final(self).current is None,
    {
        self.current = None;
    }

    /// The signed-in user, or "Not logged in".
    pub fn require_session(&self) -> (r: Result<&SessionPayload, String>)
        ensures
            match r {
                Ok(p) => session_answer(self.current) == Ok::<SessionPayload, Seq<char>>(*p),
                Err(m) => session_answer(self.current) == Err::<SessionPayload, Seq<char>>(m@),
            },
    {
        match &self.current {
            Some(s) => Ok(s),
            None => Err(String::from_str("Not logged in")),
        }
    }

    /// The signed-in user when that is the super admin; else "Not logged
    /// in" or "Super admin access required".
    pub fn require_super_admin(&self) -> (r: Result<&SessionPayload, String>)
        ensures
            match self.current {
                Some(s) => if s.role@ == "super_admin"@ {
                    r matches Ok(p) && *p == s
                } else {
                    r matches Err(m) && m@ == "Super admin access required"@
                },
                None => r matches Err(m) && m@ == "Not logged in"@,
            },
    {
        let s = match self.require_session() {
            Ok(s) => s,
            Err(e) => return Err(e),
        };
        if !str_eq(s.role.as_str(), "super_admin") {
            proof {
                reveal_strlit("super_admin");
            }
            return Err(String::from_str("Super admin access required"));
        }
        proof {
            reveal_strlit("super_admin");
        }
        Ok(s)
    }
}

/// The port the hub listens on.
pub const HUB_PORT: u16 = 7878;

/// Whether the hub runs, its port, and where it can be reached.
pub struct HubStatus {
    pub running: bool,
    pub port: u16,
    pub url: Option<String>,
}

/// The hub's status: while it runs, its address on the local network
/// (`http://{ip}:7878`); else no address.
pub fn hub_status(running: bool, local_ip: &str) -> (s: HubStatus)
    ensures
        s.running == running,
        s.port == HUB_PORT,
        running ==> (s.url matches Some(u) && u@ == "http://"@ + local_ip@ + ":7878"@),
        !running ==> s.url is None,
{
    if running {
        let mut u = String::from_str("http://");
        u.append(local_ip);
        u.append(":7878");
        HubStatus { running: true, port: HUB_PORT, url: Some(u) }
    } else {
        HubStatus { running: false, port: HUB_PORT, url: None }
    }
}

/// The token of an `Authorization: Bearer <token>` header; empty when the
/// header is missing or does not start with "Bearer ".
pub fn bearer_token(header: &Option<String>) -> (t: String)
    ensures
        t@ == (match header {
            Some(h) => match after_prefix(h@, "Bearer "@) {
                Some(v) => v,
                None => Seq::<char>::empty(),
            },
            None => Seq::<char>::empty(),
        }),
{
    match header {
        Some(h) => match strip_prefix_str(h.as_str(), "Bearer ") {
            Some(v) => v,
            None => String::new(),
        },
        None => String::new(),
    }
}

} // verus!
