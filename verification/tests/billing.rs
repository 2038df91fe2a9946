//! Tests of the billing rules and the webhook signature checks.

use hmac::Mac;
use schedula::billing::{
    check_invoice_request, paddle_event, stripe_event, InvoiceRequest, WebhookEvent, checkout_error_text, checkout_form, checkout_price, is_subscribed_status, license_expiry_days, plan_label,
    resolve_paddle_plan, resolve_plan, subscription_action, verify_paddle_signature, verify_stripe_signature,
    CheckoutError, PriceIds, SubscriptionAction,
};

fn prices() -> PriceIds {
    PriceIds {
        pro_monthly: "p_m".into(),
        pro_annual: "p_a".into(),
        inst_monthly: "i_m".into(),
        inst_annual: "i_a".into(),
    }
}

fn hmac_hex(key: &str, msg: &str) -> String {
    let mut mac = <hmac::Hmac<sha2::Sha256> as Mac>::new_from_slice(key.as_bytes()).unwrap();
    mac.update(msg.as_bytes());
    hex::encode(mac.finalize().into_bytes())
}

#[test]
fn price_ids_map_to_plans() {
    let p = prices();
    assert_eq!(resolve_plan(&p, "p_m"), "pro");
    assert_eq!(resolve_plan(&p, "p_a"), "pro");
    assert_eq!(resolve_plan(&p, "i_m"), "institution");
    assert_eq!(resolve_plan(&p, "i_a"), "institution");
    assert_eq!(resolve_plan(&p, "unknown"), "pro");
    assert_eq!(resolve_paddle_plan(&p, "i_a"), "institution");
    assert_eq!(plan_label("institution"), "Institution");
    assert_eq!(plan_label("pro"), "Pro");
    assert_eq!(plan_label("anything"), "Pro");
}

#[test]
fn checkout_price_selection() {
    let p = prices();
    assert_eq!(checkout_price("", &p, "pro", "monthly"), Err(CheckoutError::NotConfigured));
    assert_eq!(checkout_price("sk", &p, "pro", "monthly"), Ok("p_m".to_string()));
    assert_eq!(checkout_price("sk", &p, "institution", "annual"), Ok("i_a".to_string()));
    assert_eq!(checkout_price("sk", &p, "pro", "weekly"), Err(CheckoutError::InvalidPlan));
    let empty = PriceIds { pro_monthly: String::new(), ..prices() };
    assert_eq!(checkout_price("sk", &empty, "pro", "monthly"), Err(CheckoutError::PriceMissing));
    assert_eq!(checkout_error_text(CheckoutError::InvalidPlan), (400, "Invalid plan or billing_period"));
    assert_eq!(checkout_error_text(CheckoutError::NotConfigured), (503, "Stripe not configured on this server"));
    assert_eq!(checkout_error_text(CheckoutError::PriceMissing), (503, "Price ID not configured for this plan"));
}

#[test]
fn checkout_form_offers_a_trial_to_new_customers() {
    let f = checkout_form("cus_1", "p_m", "https://app", false);
    assert_eq!(f.len(), 10);
    assert_eq!(f[0], ("customer".to_string(), "cus_1".to_string()));
    assert_eq!(f[4].1, "https://app/billing/success?session_id={CHECKOUT_SESSION_ID}");
    assert_eq!(f[5].1, "https://app/#pricing");
    assert_eq!(f[7], ("subscription_data[trial_period_days]".to_string(), "14".to_string()));
    let g = checkout_form("cus_1", "p_m", "https://app", true);
    assert_eq!(g.len(), 7);
    assert!(is_subscribed_status(&Some("trialing".into())));
    assert!(!is_subscribed_status(&Some("canceled".into())));
    assert!(!is_subscribed_status(&None));
}

#[test]
fn license_lasts_a_week_past_the_period() {
    assert_eq!(license_expiry_days(30 * 86_400, 0), 37);
    assert_eq!(license_expiry_days(0, 0), 7);
    assert_eq!(license_expiry_days(0, 100 * 86_400), 1);
}

#[test]
fn subscription_actions() {
    assert_eq!(subscription_action("canceled", true), SubscriptionAction::Ignore);
    assert_eq!(subscription_action("trialing", true), SubscriptionAction::TrialMail);
    assert_eq!(subscription_action("trialing", false), SubscriptionAction::LicenseMail);
    assert_eq!(subscription_action("active", true), SubscriptionAction::LicenseMail);
}

#[test]
fn stripe_signature_is_checked() {
    let body = br#"{"type":"x"}"#;
    let sig = hmac_hex("whsec", "123.{\"type\":\"x\"}");
    let header = format!("t=123,v1=deadbeef,v1={}", sig);
    assert!(verify_stripe_signature(body, &header, "whsec"));
    assert!(!verify_stripe_signature(body, "t=123,v1=deadbeef", "whsec"));
    assert!(!verify_stripe_signature(body, &format!("v1={}", sig), "whsec"));
    assert!(!verify_stripe_signature(body, "t=123", "whsec"));
    assert!(!verify_stripe_signature(b"{}", &header, "whsec"));
    assert!(verify_stripe_signature(body, "", ""));
}

#[test]
fn paddle_signature_is_checked() {
    let body = b"payload";
    let sig = hmac_hex("pdl", "99:payload");
    assert!(verify_paddle_signature(body, &format!("ts=99;h1={}", sig), "pdl"));
    assert!(!verify_paddle_signature(body, &format!("ts=98;h1={}", sig), "pdl"));
    assert!(!verify_paddle_signature(body, &format!("ts=99,h1={}", sig), "pdl"));
    assert!(verify_paddle_signature(body, "garbage", ""));
}

#[test]
fn webhook_events_are_routed() {
    assert_eq!(stripe_event("customer.subscription.created"), WebhookEvent::SubscriptionActive(true));
    assert_eq!(stripe_event("customer.subscription.updated"), WebhookEvent::SubscriptionActive(false));
    assert_eq!(stripe_event("customer.subscription.deleted"), WebhookEvent::SubscriptionCanceled);
    assert_eq!(stripe_event("invoice.payment_failed"), WebhookEvent::PaymentFailed);
    assert_eq!(stripe_event("subscription.created"), WebhookEvent::Other);
    assert_eq!(paddle_event("subscription.created"), WebhookEvent::SubscriptionActive(true));
    assert_eq!(paddle_event("subscription.canceled"), WebhookEvent::SubscriptionCanceled);
    assert_eq!(paddle_event("transaction.payment_failed"), WebhookEvent::PaymentFailed);
    assert_eq!(paddle_event("customer.subscription.created"), WebhookEvent::Other);
}

#[test]
fn invoice_requests_are_checked() {
    let ok = InvoiceRequest {
        org_name: "Uni".into(),
        contact_name: "A".into(),
        contact_email: "a@uni.edu".into(),
        plan: "institution".into(),
        user_count: Some(3),
        country: None,
        notes: None,
    };
    assert!(check_invoice_request(&ok).is_ok());
    let no_org = InvoiceRequest { org_name: String::new(), ..ok };
    assert_eq!(check_invoice_request(&no_org), Err("org_name and contact_email are required"));
    let bad_plan = InvoiceRequest { org_name: "Uni".into(), plan: "free".into(), ..no_org };
    assert_eq!(check_invoice_request(&bad_plan), Err("plan must be 'pro' or 'institution'"));
}

#[test]
fn checkout_price_resolves_back_to_the_chosen_plan() {
    let p = prices();
    for (plan, period) in [("pro", "monthly"), ("pro", "annual"), ("institution", "monthly"), ("institution", "annual")] {
        let price = checkout_price("sk", &p, plan, period).unwrap();
        assert_eq!(resolve_plan(&p, &price), plan);
    }
}
