//! Billing rules of the license server: which price a checkout uses, which
//! plan a paid price stands for, how long a license issued for a
//! subscription lasts, which mail follows a subscription event, and the
//! webhook signature checks.

use vstd::prelude::*;
use vstd::string::StringSliceAdditionalSpecFns;
use vstd::utf8::encode_utf8;
use crate::text::{str_eq, split_on, split_pieces, after_prefix, strip_prefix_str};

verus! {

// ── Request and record types ────────────────────────────────────────────────

/// SMTP settings of the mail sender.
pub struct EmailConfig {
    pub smtp_host: String,
    pub smtp_port: u16,
    pub smtp_username: String,
    pub smtp_password: String,
    pub smtp_from: String,
}

/// A checkout asked for by a customer.
pub struct CheckoutRequest {
    pub email: String,
    /// "pro" | "institution"
    pub plan: String,
    /// "monthly" | "annual"
    pub billing_period: String,
}

/// The checkout page a customer is sent to.
pub struct CheckoutResponse {
    pub checkout_url: String,
}

/// A request for the customer portal.
pub struct PortalQuery {
    pub email: String,
    pub return_url: Option<String>,
}

/// A request to be invoiced instead of paying by card.
pub struct InvoiceRequest {
    pub org_name: String,
    pub contact_name: String,
    pub contact_email: String,
    /// "pro" | "institution"
    pub plan: String,
    pub user_count: Option<i64>,
    pub country: Option<String>,
    pub notes: Option<String>,
}

/// A stored invoice request.
pub struct InvoiceRecord {
    pub id: String,
    pub org_name: String,
    pub contact_name: String,
    pub contact_email: String,
    pub plan: String,
    pub user_count: Option<i64>,
    pub country: Option<String>,
    pub notes: Option<String>,
    pub status: String,
    pub created_at: String,
    pub paid_at: Option<String>,
    pub issued_at: Option<String>,
    pub jti: Option<String>,
}

/// The admin key passed as a query parameter.
pub struct AdminQuery {
    pub key: Option<String>,
}

/// The four price ids configured for one payment provider.
pub struct PriceIds {
    pub pro_monthly: String,
    pub pro_annual: String,
    pub inst_monthly: String,
    pub inst_annual: String,
}

// ── Plans and prices ─────────────────────────────────────────────────────────

/// The plan a paid price stands for: "institution" for the institution
/// prices, else "pro" (also for unknown prices).
pub open spec fn plan_of_price(p: PriceIds, price_id: Seq<char>) -> Seq<char> {
    if price_id == p.pro_monthly@ || price_id == p.pro_annual@ {
        "pro"@
    } else if price_id == p.inst_monthly@ || price_id == p.inst_annual@ {
        "institution"@
    } else {
        "pro"@
    }
}

/// The plan a Stripe price stands for.
pub fn resolve_plan(prices: &PriceIds, price_id: &str) -> (plan: String)
    ensures
        plan@ == plan_of_price(*prices, price_id@),
{
    if str_eq(price_id, prices.pro_monthly.as_str()) || str_eq(price_id, prices.pro_annual.as_str()) {
        String::from_str("pro")
    } else if str_eq(price_id, prices.inst_monthly.as_str()) || str_eq(price_id, prices.inst_annual.as_str()) {
        String::from_str("institution")
    } else {
        String::from_str("pro")
    }
}

/// The plan a Paddle price stands for (the same rule over Paddle's ids).
pub fn resolve_paddle_plan(prices: &PriceIds, price_id: &str) -> (plan: String)
    ensures
        plan@ == plan_of_price(*prices, price_id@),
{
    resolve_plan(prices, price_id)
}

/// The name of a plan in mails: "Institution" or "Pro".
pub fn plan_label(plan: &str) -> (label: &'static str)
    ensures
        label@ == (if plan@ == "institution"@ { "Institution"@ } else { "Pro"@ }),
{
    if str_eq(plan, "institution") {
        "Institution"
    } else {
        "Pro"
    }
}

/// Why a checkout cannot start.
#[derive(PartialEq, Eq, Structural, Clone, Copy, Debug)]
pub enum CheckoutError {
    /// No Stripe secret is configured (503).
    NotConfigured,
    /// The plan or the billing period is not one on sale (400).
    InvalidPlan,
    /// The price of the plan is not configured (503).
    PriceMissing,
}

/// The HTTP status and message of a checkout error.
pub fn checkout_error_text(e: CheckoutError) -> (r: (u16, &'static str))
    ensures
        r.0 == (match e {
            CheckoutError::InvalidPlan => 400u16,
            _ => 503u16,
        }),
        r.1@ == (match e {
            CheckoutError::NotConfigured => "Stripe not configured on this server"@,
            CheckoutError::InvalidPlan => "Invalid plan or billing_period"@,
            CheckoutError::PriceMissing => "Price ID not configured for this plan"@,
        }),
{
    match e {
        CheckoutError::NotConfigured => (503, "Stripe not configured on this server"),
        CheckoutError::InvalidPlan => (400, "Invalid plan or billing_period"),
        CheckoutError::PriceMissing => (503, "Price ID not configured for this plan"),
    }
}

/// The price of a plan and billing period, if on sale.
pub open spec fn price_for(p: PriceIds, plan: Seq<char>, period: Seq<char>) -> Option<Seq<char>> {
    if plan == "pro"@ && period == "monthly"@ {
        Some(p.pro_monthly@)
    } else if plan == "pro"@ && period == "annual"@ {
        Some(p.pro_annual@)
    } else if plan == "institution"@ && period == "monthly"@ {
        Some(p.inst_monthly@)
    } else if plan == "institution"@ && period == "annual"@ {
        Some(p.inst_annual@)
    } else {
        None
    }
}

/// The billing period a configured price is charged by: "annual" for the
/// annual prices, else "monthly".
pub open spec fn period_of_price(p: PriceIds, price_id: Seq<char>) -> Seq<char> {
    if price_id == p.pro_annual@ || price_id == p.inst_annual@ {
        "annual"@
    } else {
        "monthly"@
    }
}

/// A checkout charges what was chosen: a price exists exactly for the plans
/// "pro" and "institution" and the periods "monthly" and "annual", and,
/// where the four configured prices differ, the price used is one whose
/// plan is the chosen plan and whose period is the chosen period.
pub proof fn law_checkout_price_matches_choice(p: PriceIds, plan: Seq<char>, period: Seq<char>)
    requires
        p.pro_monthly@ != p.pro_annual@,
        p.pro_monthly@ != p.inst_monthly@,
        p.pro_monthly@ != p.inst_annual@,
        p.pro_annual@ != p.inst_monthly@,
        p.pro_annual@ != p.inst_annual@,
        p.inst_monthly@ != p.inst_annual@,
    ensures
        price_for(p, plan, period) is Some <==> (plan == "pro"@ || plan == "institution"@) && (period == "monthly"@
            || period == "annual"@),
        price_for(p, plan, period) matches Some(q) ==> plan_of_price(p, q) == plan && period_of_price(p, q) == period,
{
    reveal_strlit("pro");
    reveal_strlit("institution");
    reveal_strlit("monthly");
    reveal_strlit("annual");
    assert("pro"@.len() != "institution"@.len());
    assert("monthly"@.len() != "annual"@.len());
}

/// The price a checkout uses, or why none can be used: Stripe must be
/// configured, the plan and period must be on sale, and their price must
/// be configured.
pub fn checkout_price(stripe_secret: &str, prices: &PriceIds, plan: &str, period: &str) -> (r: Result<String, CheckoutError>)
    ensures
        stripe_secret@.len() == 0 ==> r == Err::<String, CheckoutError>(CheckoutError::NotConfigured),
        stripe_secret@.len() > 0 ==> match price_for(*prices, plan@, period@) {
            None => r == Err::<String, CheckoutError>(CheckoutError::InvalidPlan),
            Some(p) => if p.len() == 0 {
                r == Err::<String, CheckoutError>(CheckoutError::PriceMissing)
            } else {
                r matches Ok(q) && q@ == p
            },
        },
{
    if stripe_secret.is_empty() {
        return Err(CheckoutError::NotConfigured);
    }
    let price: &String = if str_eq(plan, "pro") && str_eq(period, "monthly") {
        &prices.pro_monthly
    } else if str_eq(plan, "pro") && str_eq(period, "annual") {
        &prices.pro_annual
    } else if str_eq(plan, "institution") && str_eq(period, "monthly") {
        &prices.inst_monthly
    } else if str_eq(plan, "institution") && str_eq(period, "annual") {
        &prices.inst_annual
    } else {
        return Err(CheckoutError::InvalidPlan);
    };
    if price.as_str().is_empty() {
        return Err(CheckoutError::PriceMissing);
    }
    Ok(price.clone())
}

/// A form field as text.
pub open spec fn field_view(f: (String, String)) -> (Seq<char>, Seq<char>) {
    (f.0@, f.1@)
}

/// The fields of a Stripe checkout session: the customer, a subscription
/// to one unit of the price, the return pages, promotion codes; and, for a
/// customer who is not already subscribed, a 14-day trial that is canceled
/// when no payment method was added.
pub open spec fn checkout_fields(customer: Seq<char>, price: Seq<char>, app_url: Seq<char>, subscribed: bool) -> Seq<(Seq<char>, Seq<char>)> {
    let base = seq![
        ("customer"@, customer),
        ("mode"@, "subscription"@),
        ("line_items[0][price]"@, price),
        ("line_items[0][quantity]"@, "1"@),
        ("success_url"@, app_url + "/billing/success?session_id={CHECKOUT_SESSION_ID}"@),
        ("cancel_url"@, app_url + "/#pricing"@),
        ("allow_promotion_codes"@, "true"@),
    ];
    if subscribed {
        base
    } else {
        base + seq![
            ("subscription_data[trial_period_days]"@, "14"@),
            ("subscription_data[trial_settings][end_behavior][missing_payment_method]"@, "cancel"@),
            ("payment_method_collection"@, "if_required"@),
        ]
    }
}

fn field(k: &str, v: &str) -> (f: (String, String))
    ensures
        field_view(f) == (k@, v@),
{
    (String::from_str(k), String::from_str(v))
}

/// The form of a Stripe checkout session.
pub fn checkout_form(customer_id: &str, price_id: &str, app_url: &str, already_subscribed: bool) -> (form: Vec<(String, String)>)
    ensures
        form@.map_values(|f: (String, String)| field_view(f)) == checkout_fields(
            customer_id@,
            price_id@,
            app_url@,
            already_subscribed,
        ),
{
    let mut success = String::from_str(app_url);
    success.append("/billing/success?session_id={CHECKOUT_SESSION_ID}");
    let mut cancel = String::from_str(app_url);
    cancel.append("/#pricing");
    let mut form: Vec<(String, String)> = Vec::new();
    form.push(field("customer", customer_id));
    form.push(field("mode", "subscription"));
    form.push(field("line_items[0][price]", price_id));
    form.push(field("line_items[0][quantity]", "1"));
    form.push(field("success_url", success.as_str()));
    form.push(field("cancel_url", cancel.as_str()));
    form.push(field("allow_promotion_codes", "true"));
    if !already_subscribed {
        form.push(field("subscription_data[trial_period_days]", "14"));
        form.push(field("subscription_data[trial_settings][end_behavior][missing_payment_method]", "cancel"));
        form.push(field("payment_method_collection", "if_required"));
    }
    assert(form@.map_values(|f: (String, String)| field_view(f)) =~= checkout_fields(
        customer_id@,
        price_id@,
        app_url@,
        already_subscribed,
    ));
    form
}

/// Whether a customer's stored status counts as already subscribed.
pub fn is_subscribed_status(status: &Option<String>) -> (b: bool)
    ensures
        b == (status matches Some(s) && (s@ == "active"@ || s@ == "trialing"@)),
{
    match status {
        Some(s) => str_eq(s.as_str(), "active") || str_eq(s.as_str(), "trialing"),
        None => false,
    }
}

/// The four price ids differ from each other.
pub open spec fn prices_distinct(p: PriceIds) -> bool {
    &&& p.pro_monthly@ != p.pro_annual@
    &&& p.pro_monthly@ != p.inst_monthly@
    &&& p.pro_monthly@ != p.inst_annual@
    &&& p.pro_annual@ != p.inst_monthly@
    &&& p.pro_annual@ != p.inst_annual@
    &&& p.inst_monthly@ != p.inst_annual@
}

/// A subscription bought through checkout is credited with the plan the
/// customer chose: when the four configured price ids differ, the plan of
/// the price that checkout uses for a plan and period is that plan.
pub proof fn lemma_checkout_plan_roundtrip(p: PriceIds, plan: Seq<char>, period: Seq<char>)
    requires
        prices_distinct(p),
        price_for(p, plan, period) is Some,
    ensures
        plan_of_price(p, price_for(p, plan, period)->0) == plan,
{
}

// ── Subscriptions ────────────────────────────────────────────────────────────

/// Days a license issued for a subscription lasts: until seven days after
/// the end of the paid period, at least one (Rust division, rounding
/// toward zero).
pub open spec fn license_days_spec(period_end: i64, now: i64) -> int {
    let secs = period_end + 7 * 86400 - now;
    let days = if secs >= 0 { secs / 86400 } else { -((-secs) / 86400) };
    if days > 1 { days } else { 1 }
}

/// Days a license issued for a subscription lasts.
pub fn license_expiry_days(period_end: i64, now: i64) -> (d: i64)
    requires
        period_end + 7 * 86400 <= i64::MAX,
        i64::MIN <= period_end + 7 * 86400 - now <= i64::MAX,
    ensures
        d == license_days_spec(period_end, now),
{
    let end = period_end + 7 * 86400;
    let secs: i128 = (end as i128) - (now as i128);
    let days: i128 = if secs >= 0 { secs / 86400 } else { -((-secs) / 86400) };
    if days > 1 {
        days as i64
    } else {
        1
    }
}

/// What follows a subscription becoming active or changing.
#[derive(PartialEq, Eq, Structural, Clone, Copy, Debug)]
pub enum SubscriptionAction {
    /// The subscription is neither active nor trialing: no license.
    Ignore,
    /// A new trial: issue a license and send the trial mail.
    TrialMail,
    /// Issue a license and send it by mail.
    LicenseMail,
}

/// The action for a subscription event: no license unless the status is
/// "active" or "trialing"; a newly created trial gets the trial mail,
/// everything else the license mail.
pub fn subscription_action(status: &str, is_new: bool) -> (a: SubscriptionAction)
    ensures
        a == (if !(status@ == "active"@ || status@ == "trialing"@) {
            SubscriptionAction::Ignore
        } else if is_new && status@ == "trialing"@ {
            SubscriptionAction::TrialMail
        } else {
            SubscriptionAction::LicenseMail
        }),
{
    let active = str_eq(status, "active");
    let trialing = str_eq(status, "trialing");
    if !(active || trialing) {
        SubscriptionAction::Ignore
    } else if is_new && trialing {
        SubscriptionAction::TrialMail
    } else {
        SubscriptionAction::LicenseMail
    }
}

/// What a webhook event asks for.
#[derive(PartialEq, Eq, Structural, Clone, Copy, Debug)]
pub enum WebhookEvent {
    /// A subscription was created (`true`) or updated (`false`).
    SubscriptionActive(bool),
    /// A subscription was canceled.
    SubscriptionCanceled,
    /// A payment failed.
    PaymentFailed,
    /// Nothing to do.
    Other,
}

/// The kind of a Stripe event.
pub fn stripe_event(event_type: &str) -> (e: WebhookEvent)
    ensures
        e == (if event_type@ == "customer.subscription.created"@ {
            WebhookEvent::SubscriptionActive(true)
        } else if event_type@ == "customer.subscription.updated"@ {
            WebhookEvent::SubscriptionActive(false)
        } else if event_type@ == "customer.subscription.deleted"@ {
            WebhookEvent::SubscriptionCanceled
        } else if event_type@ == "invoice.payment_failed"@ {
            WebhookEvent::PaymentFailed
        } else {
            WebhookEvent::Other
        }),
{
    if str_eq(event_type, "customer.subscription.created") {
        WebhookEvent::SubscriptionActive(true)
    } else if str_eq(event_type, "customer.subscription.updated") {
        WebhookEvent::SubscriptionActive(false)
    } else if str_eq(event_type, "customer.subscription.deleted") {
        WebhookEvent::SubscriptionCanceled
    } else if str_eq(event_type, "invoice.payment_failed") {
        WebhookEvent::PaymentFailed
    } else {
        WebhookEvent::Other
    }
}

/// The kind of a Paddle event.
pub fn paddle_event(event_type: &str) -> (e: WebhookEvent)
    ensures
        e == (if event_type@ == "subscription.created"@ {
            WebhookEvent::SubscriptionActive(true)
        } else if event_type@ == "subscription.updated"@ {
            WebhookEvent::SubscriptionActive(false)
        } else if event_type@ == "subscription.canceled"@ {
            WebhookEvent::SubscriptionCanceled
        } else if event_type@ == "transaction.payment_failed"@ {
            WebhookEvent::PaymentFailed
        } else {
            WebhookEvent::Other
        }),
{
    if str_eq(event_type, "subscription.created") {
        WebhookEvent::SubscriptionActive(true)
    } else if str_eq(event_type, "subscription.updated") {
        WebhookEvent::SubscriptionActive(false)
    } else if str_eq(event_type, "subscription.canceled") {
        WebhookEvent::SubscriptionCanceled
    } else if str_eq(event_type, "transaction.payment_failed") {
        WebhookEvent::PaymentFailed
    } else {
        WebhookEvent::Other
    }
}

/// The checks on an invoice request: an organization and a contact e-mail
/// are required, and the plan must be one on sale.
pub fn check_invoice_request(req: &InvoiceRequest) -> (r: Result<(), &'static str>)
    ensures
        r is Ok <==> req.org_name@.len() > 0 && req.contact_email@.len() > 0 && (req.plan@ == "pro"@ || req.plan@
            == "institution"@),
        r matches Err(m) ==> m@ == (if req.org_name@.len() == 0 || req.contact_email@.len() == 0 {
            "org_name and contact_email are required"@
        } else {
            "plan must be 'pro' or 'institution'"@
        }),
{
    if req.org_name.as_str().is_empty() || req.contact_email.as_str().is_empty() {
        return Err("org_name and contact_email are required");
    }
    if !(str_eq(req.plan.as_str(), "pro") || str_eq(req.plan.as_str(), "institution")) {
        return Err("plan must be 'pro' or 'institution'");
    }
    Ok(())
}

// ── Webhook signatures ───────────────────────────────────────────────────────

/// The bytes that `String::from_utf8_lossy` reads from `bytes`, as text
/// (invalid sequences become U+FFFD).
pub uninterp spec fn utf8_lossy(bytes: Seq<u8>) -> Seq<char>;

/// HMAC-SHA256 of `msg` under `key`.
pub uninterp spec fn hmac_sha256_of(key: Seq<u8>, msg: Seq<u8>) -> Seq<u8>;

/// Lower-case hexadecimal digit of `d < 16`.
pub open spec fn lower_hex_digit(d: int) -> char {
    if d < 10 {
        ((48 + d) as u8) as char
    } else {
        ((87 + d) as u8) as char
    }
}

/// Bytes as lower-case hexadecimal, two digits each (`hex::encode`).
pub open spec fn lower_hex(bytes: Seq<u8>) -> Seq<char>
    decreases bytes.len(),
{
    if bytes.len() == 0 {
        Seq::<char>::empty()
    } else {
        lower_hex(bytes.drop_last()) + seq![
            lower_hex_digit(bytes.last() as int / 16),
            lower_hex_digit(bytes.last() as int % 16),
        ]
    }
}

/// Calls `String::from_utf8_lossy` and takes the text. Claimed: the result
/// is `utf8_lossy` of the bytes.
#[verifier::external_body]
fn lossy_text(bytes: &[u8]) -> (r: String)
    ensures
        r@ == utf8_lossy(bytes@),
{
    String::from_utf8_lossy(bytes).into_owned()
}

/// Computes HMAC-SHA256 with the `hmac` and `sha2` crates
/// (`Hmac::<Sha256>::new_from_slice`, `update`, `finalize`). Claimed: the
/// result is `hmac_sha256_of` the key and the message. `new_from_slice`
/// accepts keys of every length (longer keys are hashed first), so the
/// error arm is never taken.
#[verifier::external_body]
fn hmac_sha256(key: &[u8], msg: &[u8]) -> (r: Vec<u8>)
    ensures
        r@ == hmac_sha256_of(key@, msg@),
{
    match <hmac::Hmac<sha2::Sha256> as hmac::Mac>::new_from_slice(key) {
        Ok(mut mac) => {
            hmac::Mac::update(&mut mac, msg);
            hmac::Mac::finalize(mac).into_bytes().to_vec()
        },
        Err(_) => Vec::new(),
    }
}

/// Calls `hex::encode`. Claimed: two lower-case hexadecimal digits per
/// byte, in order.
#[verifier::external_body]
fn hex_encode(bytes: &[u8]) -> (r: String)
    ensures
        r@ == lower_hex(bytes@),
{
    hex::encode(bytes)
}

/// The value of the last piece that starts with `prefix`, or empty.
pub open spec fn last_value(pieces: Seq<Seq<char>>, prefix: Seq<char>) -> Seq<char>
    decreases pieces.len(),
{
    if pieces.len() == 0 {
        Seq::<char>::empty()
    } else {
        match after_prefix(pieces.last(), prefix) {
            Some(v) => v,
            None => last_value(pieces.drop_last(), prefix),
        }
    }
}

/// The values of the pieces that start with `prefix`, in order.
pub open spec fn all_values(pieces: Seq<Seq<char>>, prefix: Seq<char>) -> Seq<Seq<char>>
    decreases pieces.len(),
{
    if pieces.len() == 0 {
        Seq::<Seq<char>>::empty()
    } else {
        match after_prefix(pieces.last(), prefix) {
            Some(v) => all_values(pieces.drop_last(), prefix).push(v),
            None => all_values(pieces.drop_last(), prefix),
        }
    }
}

/// A webhook signature holds: no secret is configured (checking is off),
/// or the header names a timestamp and at least one signature, and one of
/// the signatures is the hex HMAC-SHA256, under the secret, of the
/// timestamp, `joiner` and the body read as text.
pub open spec fn signature_ok(
    payload: Seq<u8>,
    header: Seq<char>,
    secret: Seq<char>,
    sep: char,
    ts_key: Seq<char>,
    sig_key: Seq<char>,
    joiner: Seq<char>,
) -> bool {
    secret.len() == 0 || {
        let parts = split_on(header, sep);
        let ts = last_value(parts, ts_key);
        let sigs = all_values(parts, sig_key);
        &&& ts.len() > 0
        &&& sigs.len() > 0
        &&& sigs.contains(lower_hex(hmac_sha256_of(encode_utf8(secret), encode_utf8(ts + joiner + utf8_lossy(payload)))))
    }
}

/// Checks a signed webhook: `sep` separates the header's pieces, `ts_key`
/// and `sig_key` prefix the timestamp and the signatures, `joiner` stands
/// between the timestamp and the body in the signed text.
fn verify_signed(payload: &[u8], header: &str, secret: &str, sep: char, ts_key: &str, sig_key: &str, joiner: &str) -> (b: bool)
    ensures
        b == signature_ok(payload@, header@, secret@, sep, ts_key@, sig_key@, joiner@),
{
    if secret.is_empty() {
        return true;
    }
    let parts = split_pieces(header, sep);
    let ghost pv = parts.deep_view();
    let mut ts = String::new();
    let mut sigs: Vec<String> = Vec::new();
    let mut i: usize = 0;
    assert(pv.subrange(0, 0) =~= Seq::<Seq<char>>::empty());
    assert(sigs.deep_view() =~= Seq::<Seq<char>>::empty());
    while i < parts.len()
        invariant
            pv == parts.deep_view(),
            pv == split_on(header@, sep),
            i <= parts@.len(),
            ts@ == last_value(pv.subrange(0, i as int), ts_key@),
            sigs.deep_view() == all_values(pv.subrange(0, i as int), sig_key@),
        decreases parts@.len() - i,
    {
        let piece = parts[i].as_str();
        assert(piece@ == pv[i as int]);
        proof {
            assert(pv.subrange(0, i + 1).drop_last() =~= pv.subrange(0, i as int));
            assert(pv.subrange(0, i + 1).last() == pv[i as int]);
        }
        match strip_prefix_str(piece, ts_key) {
            Some(v) => {
                ts = v;
            },
            None => {},
        }
        match strip_prefix_str(piece, sig_key) {
            Some(v) => {
                let ghost before = sigs.deep_view();
                sigs.push(v);
                assert(sigs.deep_view() =~= before.push(after_prefix(pv[i as int], sig_key@)->0));
            },
            None => {},
        }
        i = i + 1;
    }
    assert(pv.subrange(0, i as int) =~= pv);
    if ts.as_str().is_empty() || sigs.len() == 0 {
        return false;
    }
    let mut signed = ts.clone();
    signed.append(joiner);
    let body = lossy_text(payload);
    signed.append(body.as_str());
    let mac = hmac_sha256(secret.as_bytes(), signed.as_str().as_bytes());
    let expected = hex_encode(mac.as_slice());
    let ghost want = lower_hex(hmac_sha256_of(encode_utf8(secret@), encode_utf8(ts@ + joiner@ + utf8_lossy(payload@))));
    assert(signed@ == ts@ + joiner@ + utf8_lossy(payload@));
    assert(expected@ == want);
    let mut k: usize = 0;
    while k < sigs.len()
        invariant
            k <= sigs@.len(),
            expected@ == want,
            want == lower_hex(hmac_sha256_of(encode_utf8(secret@), encode_utf8(ts@ + joiner@ + utf8_lossy(payload@)))),
            pv == split_on(header@, sep),
            ts@ == last_value(pv, ts_key@),
            sigs.deep_view() == all_values(pv, sig_key@),
            ts@.len() > 0,
            sigs@.len() > 0,
            secret@.len() > 0,
            forall|j: int| 0 <= j < k ==> sigs.deep_view()[j] != want,
        decreases sigs@.len() - k,
    {
        assert(sigs.deep_view()[k as int] == sigs@[k as int]@);
        if str_eq(sigs[k].as_str(), expected.as_str()) {
            assert(sigs.deep_view()[k as int] == want);
            return true;
        }
        k = k + 1;
    }
    proof {
        if sigs.deep_view().contains(want) {
            let j = choose|j: int| 0 <= j < sigs.deep_view().len() && sigs.deep_view()[j] == want;
            assert(sigs.deep_view()[j] != want);
        }
    }
    false
}

/// Checks Stripe's `Stripe-Signature` header (`t=...,v1=...`): the signed
/// text is `{t}.{body}`. An empty secret turns checking off.
pub fn verify_stripe_signature(payload: &[u8], sig_header: &str, secret: &str) -> (b: bool)
    ensures
        b == signature_ok(payload@, sig_header@, secret@, ',', "t="@, "v1="@, "."@),
{
    verify_signed(payload, sig_header, secret, ',', "t=", "v1=", ".")
}

/// Checks Paddle's `Paddle-Signature` header (`ts=...;h1=...`): the signed
/// text is `{ts}:{body}`. An empty secret turns checking off.
pub fn verify_paddle_signature(payload: &[u8], sig_header: &str, secret: &str) -> (b: bool)
    ensures
        b == signature_ok(payload@, sig_header@, secret@, ';', "ts="@, "h1="@, ":"@),
{
    verify_signed(payload, sig_header, secret, ';', "ts=", "h1=", ":")
}

} // verus!
