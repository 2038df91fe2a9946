//! Tests of the license rules.

use schedula::licensing::{
    poll_next, PollStep, MAX_POLLS,
    activation_error_text, activation_reply_error, check_activation, ActivationError, activation_code, check_expiry, days_until_expiry, effective_plan_choice, generate_activation_code,
    grace_or_expire, normalize_activation_code, is_valid_plan, issue_claims, refresh_action, refresh_succeeded, refreshed_claims,
    require_admin, revoked_for_refresh, revoked_for_validation, status_message, token_expired, token_status,
    GraceAction, LicenseClaims, PlanChoice, RefreshAction, RefreshOutcome, TokenCheck, TokenStatus,
};

fn plan_of(c: PlanChoice) -> Option<String> {
    match c {
        PlanChoice::Plan(p) => Some(p),
        PlanChoice::Free => None,
    }
}

#[test]
fn issued_claims_expire_after_the_duration() {
    let c = issue_claims("j1".to_string(), "pro", Some("Uni".to_string()), Some(30), 1_000);
    assert_eq!(c.iss, "schedula-license");
    assert_eq!(c.sub, "j1");
    assert_eq!(c.jti, "j1");
    assert_eq!(c.plan, "pro");
    assert_eq!(c.org_name.as_deref(), Some("Uni"));
    assert_eq!(c.exp, 1_000 + 30 * 86_400);
    assert_eq!(c.iat, 1_000);
}

#[test]
fn issued_claims_without_positive_duration_are_perpetual() {
    assert_eq!(issue_claims("j".into(), "pro", None, None, 5).exp, 0);
    assert_eq!(issue_claims("j".into(), "pro", None, Some(0), 5).exp, 0);
    assert_eq!(issue_claims("j".into(), "pro", None, Some(-3), 5).exp, 0);
}

#[test]
fn refreshed_claims_keep_identity_and_last_two_days() {
    let c = LicenseClaims {
        iss: "x".into(),
        sub: "other".into(),
        plan: "institution".into(),
        org_name: Some("Org".into()),
        exp: 10,
        iat: 1,
        jti: "J".into(),
    };
    let r = refreshed_claims(&c, 100);
    assert_eq!(r.iss, "schedula-license");
    assert_eq!(r.sub, "J");
    assert_eq!(r.jti, "J");
    assert_eq!(r.plan, "institution");
    assert_eq!(r.org_name.as_deref(), Some("Org"));
    assert_eq!(r.exp, 100 + 172_800);
    assert_eq!(r.iat, 100);
}

#[test]
fn expiry_rules() {
    assert!(!token_expired(0, 1_000_000));
    assert!(!token_expired(100, 100));
    assert!(token_expired(100, 101));
    let c = issue_claims("j".into(), "pro", None, Some(1), 0);
    assert!(check_expiry(c, 86_400).is_ok());
    let c = issue_claims("j".into(), "pro", None, Some(1), 0);
    assert_eq!(check_expiry(c, 86_401).err().unwrap(), "License token has expired");
}

#[test]
fn validation_status_and_messages() {
    assert_eq!(token_status(100, 200, false), TokenStatus::Expired);
    assert_eq!(token_status(100, 200, true), TokenStatus::Expired);
    assert_eq!(token_status(0, 200, true), TokenStatus::Revoked);
    assert_eq!(token_status(300, 200, false), TokenStatus::Valid);
    assert_eq!(status_message(TokenStatus::Valid), None);
    assert_eq!(status_message(TokenStatus::Expired), Some("Token expired"));
    assert_eq!(status_message(TokenStatus::Revoked), Some("License has been revoked"));
}

#[test]
fn unknown_license_is_revoked_only_for_refresh() {
    assert!(!revoked_for_validation(None));
    assert!(revoked_for_validation(Some(1)));
    assert!(!revoked_for_validation(Some(0)));
    assert!(revoked_for_refresh(None));
    assert!(revoked_for_refresh(Some(1)));
    assert!(!revoked_for_refresh(Some(0)));
}

#[test]
fn grace_period_keeps_the_plan_for_seven_days() {
    assert_eq!(plan_of(effective_plan_choice(TokenCheck::Valid("pro".into()), None, None)), Some("pro".into()));
    assert_eq!(
        plan_of(effective_plan_choice(TokenCheck::Expired, Some(7), Some("institution".into()))),
        Some("institution".into())
    );
    assert_eq!(plan_of(effective_plan_choice(TokenCheck::Expired, Some(8), Some("pro".into()))), None);
    assert_eq!(plan_of(effective_plan_choice(TokenCheck::Expired, None, Some("pro".into()))), None);
    assert_eq!(plan_of(effective_plan_choice(TokenCheck::Expired, Some(0), None)), None);
    assert_eq!(plan_of(effective_plan_choice(TokenCheck::Invalid, Some(0), Some("pro".into()))), None);
}

#[test]
fn days_left_round_toward_zero_and_never_negative() {
    assert_eq!(days_until_expiry(86_400 * 3 + 5, 0), 3);
    assert_eq!(days_until_expiry(86_399, 0), 0);
    assert_eq!(days_until_expiry(0, 86_400 * 2), 0);
}

#[test]
fn activation_code_format() {
    let code = activation_code(&vec![0x01, 0xAB, 0x00, 0xFF, 0x10, 0x9C, 0x7E, 0x03]);
    assert_eq!(code, "SCHED-01AB-00FF-109C-7E03");
    let g = generate_activation_code();
    assert_eq!(g.len(), 25);
    assert!(g.starts_with("SCHED-"));
    for (i, ch) in g.chars().enumerate() {
        if i == 5 || i == 10 || i == 15 || i == 20 {
            assert_eq!(ch, '-');
        } else if i > 5 {
            assert!(ch.is_ascii_digit() || ('A'..='F').contains(&ch));
        }
    }
}

#[test]
fn plans_and_admin_key() {
    assert!(is_valid_plan("pro"));
    assert!(is_valid_plan("institution"));
    assert!(!is_valid_plan("free"));
    assert!(require_admin(&Some("k".into()), "k"));
    assert!(!require_admin(&Some("x".into()), "k"));
    assert!(!require_admin(&None, "k"));
}

#[test]
fn refresh_decisions() {
    assert_eq!(refresh_action(RefreshOutcome::NoToken), RefreshAction::Skip);
    assert_eq!(refresh_action(RefreshOutcome::Refreshed), RefreshAction::Store);
    assert_eq!(refresh_action(RefreshOutcome::BadResponse), RefreshAction::Keep);
    assert_eq!(refresh_action(RefreshOutcome::Rejected(401)), RefreshAction::Revoke);
    assert_eq!(refresh_action(RefreshOutcome::Rejected(403)), RefreshAction::Revoke);
    assert_eq!(refresh_action(RefreshOutcome::Rejected(500)), RefreshAction::Keep);
    assert_eq!(refresh_action(RefreshOutcome::Unreachable), RefreshAction::Grace);
    assert!(refresh_succeeded(RefreshAction::Store));
    assert!(!refresh_succeeded(RefreshAction::Grace));
    assert_eq!(grace_or_expire("active", true), GraceAction::Expire);
    assert_eq!(grace_or_expire("grace", true), GraceAction::Expire);
    assert_eq!(grace_or_expire("active", false), GraceAction::Grace);
    assert_eq!(grace_or_expire("grace", false), GraceAction::Keep);
    assert_eq!(grace_or_expire("expired", true), GraceAction::Keep);
}

#[test]
fn activation_code_checks() {
    assert_eq!(check_activation(false, true, Some(true)), Err(ActivationError::Unknown));
    assert_eq!(check_activation(true, true, Some(false)), Err(ActivationError::Used));
    assert_eq!(check_activation(true, false, Some(true)), Err(ActivationError::Expired));
    assert_eq!(check_activation(true, false, None), Ok(()));
    assert_eq!(check_activation(true, false, Some(false)), Ok(()));
    assert_eq!(activation_error_text(ActivationError::Unknown), (404, "Invalid activation code"));
    assert_eq!(activation_error_text(ActivationError::Used).0, 410);
    assert_eq!(activation_reply_error(200, None), None);
    assert_eq!(
        activation_reply_error(404, Some("x".into())).as_deref(),
        Some("Invalid activation code — check for typos and try again.")
    );
    assert_eq!(activation_reply_error(410, None).as_deref(), Some("Activation code is expired or already used."));
    assert_eq!(activation_reply_error(410, Some("gone".into())).as_deref(), Some("gone"));
    assert_eq!(activation_reply_error(500, None).as_deref(), Some("Activation failed"));
}

#[test]
fn issued_license_is_valid_for_its_days_then_expires() {
    let c = issue_claims("j".into(), "pro", None, Some(2), 1_000);
    assert!(!token_expired(c.exp, 1_000));
    assert!(!token_expired(c.exp, 1_000 + 2 * 86_400));
    assert!(token_expired(c.exp, 1_000 + 2 * 86_400 + 1));
    let p = issue_claims("j".into(), "pro", None, None, 1_000);
    assert!(!token_expired(p.exp, i64::MAX));
}

#[test]
fn refreshed_token_lasts_two_days() {
    let c = issue_claims("j".into(), "pro", None, Some(1), 0);
    let r = refreshed_claims(&c, 5_000);
    assert!(!token_expired(r.exp, 5_000));
    assert!(!token_expired(r.exp, 5_000 + 172_800));
    assert!(token_expired(r.exp, 5_000 + 172_801));
}

#[test]
fn submitted_activation_code_is_trimmed_and_upper_cased() {
    assert_eq!(normalize_activation_code("  sched-ab12-cd34-ef56-7890 \n"), "SCHED-AB12-CD34-EF56-7890");
}

#[test]
fn generated_activation_code_survives_normalization() {
    let code = generate_activation_code();
    assert_eq!(normalize_activation_code(&code), code);
}

#[test]
fn burnt_activation_code_cannot_be_redeemed_again() {
    let mut rec = schedula::licensing::CodeRecord { used_at: None, jti: None };
    assert_eq!(check_activation(true, rec.used_at.is_some(), Some(false)), Ok(()));
    schedula::licensing::burn_code(&mut rec, "2025-01-01T00:00:00Z".to_string(), "jti-9".to_string());
    assert_eq!(rec.jti.as_deref(), Some("jti-9"));
    assert_eq!(check_activation(true, rec.used_at.is_some(), Some(false)), Err(ActivationError::Used));
}

#[test]
fn device_polling_announces_waits_then_gives_up() {
    assert!(matches!(poll_next(1, true), PollStep::Announce));
    assert!(matches!(poll_next(MAX_POLLS, true), PollStep::Announce));
    assert!(matches!(poll_next(1, false), PollStep::Wait));
    assert!(matches!(poll_next(119, false), PollStep::Wait));
    assert!(matches!(poll_next(120, false), PollStep::GiveUp));
}
