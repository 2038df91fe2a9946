//! Tests of the mail texts.

use schedula::mail::{
    cancellation_mail_body, cancellation_mail_subject, invoice_ack_body, invoice_ack_subject, license_mail_body,
    license_mail_subject, payment_failed_mail_body, payment_failed_mail_subject, trial_info, trial_mail_body,
    trial_mail_subject,
};

#[test]
fn license_mail() {
    let label = "Pro";
    let token = "TOKEN-123";
    let period_end = "2030-01-31";
    assert_eq!(license_mail_subject(label), "Your Schedula Pro License Key");
    let expected = format!(
"Hello,

Thank you for subscribing to Schedula {label}!

Your license key is:

{token}

To activate it, open your Schedula Hub admin panel and go to:
  Settings → License → Activate License

Paste the key into the text field and click Activate.

Your subscription is active until {period_end}.

If you have questions, just reply to this email.

— The Schedula Team"
    );
    assert_eq!(license_mail_body(label, token, period_end), expected);
}

#[test]
fn trial_mail() {
    assert_eq!(trial_mail_subject(), "Your Schedula Pro Trial Has Started");
    assert_eq!(trial_info(&Some("2030-02-01".to_string())), "Your trial runs until 2030-02-01.");
    assert_eq!(trial_info(&None), "Your 14-day trial has started.");
    let trial_info = "Your 14-day trial has started.";
    let token = "T";
    let app_url = "https://schedula.app";
    let to = "a@b.c";
    let expected = format!(
"Hello,

Welcome to Schedula Pro! Your 14-day free trial is now active.

{trial_info}

Your trial license key is:

{token}

To activate it, open your Schedula Hub admin panel and go to:
  Settings → License → Activate License

After your trial, your card on file will be charged automatically.
You can manage or cancel your subscription at any time:
  {app_url}/billing/portal?email={to}

— The Schedula Team"
    );
    assert_eq!(trial_mail_body(trial_info, token, app_url, to), expected);
}

#[test]
fn cancellation_and_payment_mails() {
    let period_end = "2030-03-01";
    let app_url = "https://schedula.app";
    let to = "a@b.c";
    assert_eq!(cancellation_mail_subject(), "Your Schedula Subscription Has Been Canceled");
    let expected = format!(
"Hello,

Your Schedula subscription has been canceled.

Your access continues until {period_end}. After that date, your hub will
automatically revert to the Free plan (10 batches, 1 admin).

If you change your mind, you can reactivate at any time:
  {app_url}/#pricing

— The Schedula Team"
    );
    assert_eq!(cancellation_mail_body(period_end, app_url), expected);
    assert_eq!(payment_failed_mail_subject(), "Schedula Payment Failed — Action Required");
    let expected = format!(
"Hello,

We were unable to process your last Schedula payment.

Please update your payment method to avoid interruption to your service:
  {app_url}/billing/portal?email={to}

— The Schedula Team"
    );
    assert_eq!(payment_failed_mail_body(app_url, to), expected);
}

#[test]
fn invoice_ack_mail() {
    let name = "Ada";
    let label = "Institution";
    let org = "Uni";
    let app_url = "https://schedula.app";
    assert_eq!(invoice_ack_subject(label), format!("Your Schedula {label} Invoice Request — Received"));
    let expected = format!(
"Hello {name},

Thank you for your interest in Schedula {label} for {org}!

We've received your invoice request and will be in touch within 1 business day
with a quote and payment details.

Once payment is confirmed, your license key will be emailed to this address.
You'll paste it into your Hub admin panel under Settings → License to activate.

In the meantime, feel free to download and evaluate the app:
  {app_url}

If you have any questions, just reply to this email.

— The Schedula Team"
    );
    assert_eq!(invoice_ack_body(name, label, org, app_url), expected);
}
