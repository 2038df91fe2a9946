//! The texts of the mails the license server sends to customers.

use vstd::prelude::*;

verus! {

/// Subject of the mail that sends a license key.
pub open spec fn license_mail_subject_text(label: Seq<char>) -> Seq<char> {
    "Your Schedula "@ + label + " License Key"@
}

/// Subject of the mail that sends a license key.
pub fn license_mail_subject(label: &str) -> (r: String)
    ensures
        r@ == license_mail_subject_text(label@),
{
    let mut r = String::new();
    r.append("Your Schedula ");
    r.append(label);
    r.append(" License Key");
    assert(r@ =~= license_mail_subject_text(label@));
    r
}

/// Body of the mail that sends a license key.
pub open spec fn license_mail_body_text(label: Seq<char>, token: Seq<char>, period_end: Seq<char>) -> Seq<char> {
    "Hello,\n\nThank you for subscribing to Schedula "@ + label + "!\n\nYour license key is:\n\n"@ + token + "\n\nTo activate it, open your Schedula Hub admin panel and go to:\n  Settings → License → Activate License\n\nPaste the key into the text field and click Activate.\n\nYour subscription is active until "@ + period_end + ".\n\nIf you have questions, just reply to this email.\n\n— The Schedula Team"@
}

/// Body of the mail that sends a license key.
pub fn license_mail_body(label: &str, token: &str, period_end: &str) -> (r: String)
    ensures
        r@ == license_mail_body_text(label@, token@, period_end@),
{
    let mut r = String::new();
    r.append("Hello,\n\nThank you for subscribing to Schedula ");
    r.append(label);
    r.append("!\n\nYour license key is:\n\n");
    r.append(token);
    r.append("\n\nTo activate it, open your Schedula Hub admin panel and go to:\n  Settings → License → Activate License\n\nPaste the key into the text field and click Activate.\n\nYour subscription is active until ");
    r.append(period_end);
    r.append(".\n\nIf you have questions, just reply to this email.\n\n— The Schedula Team");
    assert(r@ =~= license_mail_body_text(label@, token@, period_end@));
    r
}

/// Body of the mail that starts a trial.
pub open spec fn trial_mail_body_text(trial_info: Seq<char>, token: Seq<char>, app_url: Seq<char>, to: Seq<char>) -> Seq<char> {
    "Hello,\n\nWelcome to Schedula Pro! Your 14-day free trial is now active.\n\n"@ + trial_info + "\n\nYour trial license key is:\n\n"@ + token + "\n\nTo activate it, open your Schedula Hub admin panel and go to:\n  Settings → License → Activate License\n\nAfter your trial, your card on file will be charged automatically.\nYou can manage or cancel your subscription at any time:\n  "@ + app_url + "/billing/portal?email="@ + to + "\n\n— The Schedula Team"@
}

/// Body of the mail that starts a trial.
pub fn trial_mail_body(trial_info: &str, token: &str, app_url: &str, to: &str) -> (r: String)
    ensures
        r@ == trial_mail_body_text(trial_info@, token@, app_url@, to@),
{
    let mut r = String::new();
    r.append("Hello,\n\nWelcome to Schedula Pro! Your 14-day free trial is now active.\n\n");
    r.append(trial_info);
    r.append("\n\nYour trial license key is:\n\n");
    r.append(token);
    r.append("\n\nTo activate it, open your Schedula Hub admin panel and go to:\n  Settings → License → Activate License\n\nAfter your trial, your card on file will be charged automatically.\nYou can manage or cancel your subscription at any time:\n  ");
    r.append(app_url);
    r.append("/billing/portal?email=");
    r.append(to);
    r.append("\n\n— The Schedula Team");
    assert(r@ =~= trial_mail_body_text(trial_info@, token@, app_url@, to@));
    r
}

/// Body of the mail that confirms a cancellation.
pub open spec fn cancellation_mail_body_text(period_end: Seq<char>, app_url: Seq<char>) -> Seq<char> {
    "Hello,\n\nYour Schedula subscription has been canceled.\n\nYour access continues until "@ + period_end + ". After that date, your hub will\nautomatically revert to the Free plan (10 batches, 1 admin).\n\nIf you change your mind, you can reactivate at any time:\n  "@ + app_url + "/#pricing\n\n— The Schedula Team"@
}

/// Body of the mail that confirms a cancellation.
pub fn cancellation_mail_body(period_end: &str, app_url: &str) -> (r: String)
    ensures
        r@ == cancellation_mail_body_text(period_end@, app_url@),
{
    let mut r = String::new();
    r.append("Hello,\n\nYour Schedula subscription has been canceled.\n\nYour access continues until ");
    r.append(period_end);
    r.append(". After that date, your hub will\nautomatically revert to the Free plan (10 batches, 1 admin).\n\nIf you change your mind, you can reactivate at any time:\n  ");
    r.append(app_url);
    r.append("/#pricing\n\n— The Schedula Team");
    assert(r@ =~= cancellation_mail_body_text(period_end@, app_url@));
    r
}

/// Body of the mail about a failed payment.
pub open spec fn payment_failed_mail_body_text(app_url: Seq<char>, to: Seq<char>) -> Seq<char> {
    "Hello,\n\nWe were unable to process your last Schedula payment.\n\nPlease update your payment method to avoid interruption to your service:\n  "@ + app_url + "/billing/portal?email="@ + to + "\n\n— The Schedula Team"@
}

/// Body of the mail about a failed payment.
pub fn payment_failed_mail_body(app_url: &str, to: &str) -> (r: String)
    ensures
        r@ == payment_failed_mail_body_text(app_url@, to@),
{
    let mut r = String::new();
    r.append("Hello,\n\nWe were unable to process your last Schedula payment.\n\nPlease update your payment method to avoid interruption to your service:\n  ");
    r.append(app_url);
    r.append("/billing/portal?email=");
    r.append(to);
    r.append("\n\n— The Schedula Team");
    assert(r@ =~= payment_failed_mail_body_text(app_url@, to@));
    r
}

/// Subject of the mail that acknowledges an invoice request.
pub open spec fn invoice_ack_subject_text(label: Seq<char>) -> Seq<char> {
    "Your Schedula "@ + label + " Invoice Request — Received"@
}

/// Subject of the mail that acknowledges an invoice request.
pub fn invoice_ack_subject(label: &str) -> (r: String)
    ensures
        r@ == invoice_ack_subject_text(label@),
{
    let mut r = String::new();
    r.append("Your Schedula ");
    r.append(label);
    r.append(" Invoice Request — Received");
    assert(r@ =~= invoice_ack_subject_text(label@));
    r
}

/// Body of the mail that acknowledges an invoice request.
pub open spec fn invoice_ack_body_text(name: Seq<char>, label: Seq<char>, org: Seq<char>, app_url: Seq<char>) -> Seq<char> {
    "Hello "@ + name + ",\n\nThank you for your interest in Schedula "@ + label + " for "@ + org + "!\n\nWe've received your invoice request and will be in touch within 1 business day\nwith a quote and payment details.\n\nOnce payment is confirmed, your license key will be emailed to this address.\nYou'll paste it into your Hub admin panel under Settings → License to activate.\n\nIn the meantime, feel free to download and evaluate the app:\n  "@ + app_url + "\n\nIf you have any questions, just reply to this email.\n\n— The Schedula Team"@
}

/// Body of the mail that acknowledges an invoice request.
pub fn invoice_ack_body(name: &str, label: &str, org: &str, app_url: &str) -> (r: String)
    ensures
        r@ == invoice_ack_body_text(name@, label@, org@, app_url@),
{
    let mut r = String::new();
    r.append("Hello ");
    r.append(name);
    r.append(",\n\nThank you for your interest in Schedula ");
    r.append(label);
    r.append(" for ");
    r.append(org);
    r.append("!\n\nWe've received your invoice request and will be in touch within 1 business day\nwith a quote and payment details.\n\nOnce payment is confirmed, your license key will be emailed to this address.\nYou'll paste it into your Hub admin panel under Settings → License to activate.\n\nIn the meantime, feel free to download and evaluate the app:\n  ");
    r.append(app_url);
    r.append("\n\nIf you have any questions, just reply to this email.\n\n— The Schedula Team");
    assert(r@ =~= invoice_ack_body_text(name@, label@, org@, app_url@));
    r
}

/// Subject of the mail that starts a trial.
pub fn trial_mail_subject() -> (r: &'static str)
    ensures
        r@ == "Your Schedula Pro Trial Has Started"@,
{
    "Your Schedula Pro Trial Has Started"
}

/// Subject of the mail that confirms a cancellation.
pub fn cancellation_mail_subject() -> (r: &'static str)
    ensures
        r@ == "Your Schedula Subscription Has Been Canceled"@,
{
    "Your Schedula Subscription Has Been Canceled"
}

/// Subject of the mail about a failed payment.
pub fn payment_failed_mail_subject() -> (r: &'static str)
    ensures
        r@ == "Schedula Payment Failed — Action Required"@,
{
    "Schedula Payment Failed — Action Required"
}

/// The trial line of the trial mail: its end date when known.
pub open spec fn trial_info_text(trial_end: Option<Seq<char>>) -> Seq<char> {
    match trial_end {
        Some(d) => "Your trial runs until "@ + d + "."@,
        None => "Your 14-day trial has started."@,
    }
}

/// The trial line of the trial mail.
pub fn trial_info(trial_end: &Option<String>) -> (r: String)
    ensures
        r@ == trial_info_text(match trial_end {
            Some(d) => Some(d@),
            None => None,
        }),
{
    match trial_end {
        Some(d) => {
            let mut r = String::from_str("Your trial runs until ");
            r.append(d.as_str());
            r.append(".");
            r
        },
        None => String::from_str("Your 14-day trial has started."),
    }
}

} // verus!
