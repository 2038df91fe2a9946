//! Tests of the handler rules: roles, input checks, reports and export.

use schedula::access::{
    approval_effect, check_approval_request, password_reset_payload, semester_scope, ApprovalEffect,
    check_entry_move, check_max_admins, check_no_conflict, check_other_user, check_password_length,
    check_room_type, csv_frequency, csv_header, csv_line, csv_time, data_health, db_err,
    default_scheduling_settings, export_csv, get_org_plan, org_id_filter, org_working_days,
    parse_working_days, preflight_warnings, require_super_admin, scope_clause, wants_csp, CsvLine, DataCounts,
};
use schedula::models::SessionPayload;

fn sess(role: &str, user_id: i64, org_id: Option<i64>) -> SessionPayload {
    SessionPayload {
        user_id,
        username: "u".to_string(),
        display_name: "U".to_string(),
        role: role.to_string(),
        org_id,
    }
}

#[test]
fn super_admin_passes_and_admin_is_refused() {
    assert!(require_super_admin(&sess("super_admin", 1, None)).is_ok());
    assert_eq!(
        require_super_admin(&sess("admin", 2, Some(1))).unwrap_err(),
        "Super admin access required"
    );
}

#[test]
fn org_filter_is_none_only_for_super_admin() {
    assert_eq!(org_id_filter(&sess("super_admin", 1, Some(4))), None);
    assert_eq!(org_id_filter(&sess("admin", 2, Some(4))), Some(4));
    assert_eq!(org_id_filter(&sess("viewer", 3, None)), None);
}

#[test]
fn max_admins_bounds() {
    let sa = sess("super_admin", 1, None);
    assert!(check_max_admins(&sa, 1).is_ok());
    assert!(check_max_admins(&sa, 50).is_ok());
    assert_eq!(check_max_admins(&sa, 0).unwrap_err(), "Max admins must be at least 1.");
    assert_eq!(check_max_admins(&sa, 51).unwrap_err(), "Max admins cannot exceed 50.");
    assert_eq!(
        check_max_admins(&sess("admin", 2, Some(1)), 5).unwrap_err(),
        "Super admin access required"
    );
}

#[test]
fn own_account_cannot_be_deleted() {
    let sa = sess("super_admin", 1, None);
    assert!(check_other_user(&sa, 2, "Cannot delete yourself").is_ok());
    assert_eq!(check_other_user(&sa, 1, "Cannot delete yourself").unwrap_err(), "Cannot delete yourself");
}

#[test]
fn password_length_counts_bytes() {
    assert!(check_password_length("12345678", 8).is_ok());
    assert_eq!(
        check_password_length("1234567", 8).unwrap_err(),
        "Password must be at least 8 characters"
    );
    // Four two-byte characters make eight bytes.
    assert!(check_password_length("éééé", 8).is_ok());
    assert_eq!(check_password_length("abcde", 6).unwrap_err(), "Password must be at least 6 characters");
}

#[test]
fn entry_move_checks() {
    assert!(check_entry_move("Sat", 7).is_ok());
    assert_eq!(check_entry_move("Funday", 3).unwrap_err(), "Invalid day: Funday");
    assert_eq!(check_entry_move("Mon", 8).unwrap_err(), "Invalid time slot: 8");
    assert_eq!(check_entry_move("Mon", -1).unwrap_err(), "Invalid time slot: -1");
    assert!(check_room_type("lab", "lab").is_ok());
    assert_eq!(
        check_room_type("lab", "lecture").unwrap_err(),
        "Room type mismatch: course needs 'lab' room, selected room is 'lecture'"
    );
    assert!(check_no_conflict("Mon", 2, 0).is_ok());
    assert_eq!(
        check_no_conflict("Mon", 2, 1).unwrap_err(),
        "Conflict: another entry at Mon slot 2 uses the same lecturer, batch, or room"
    );
}

#[test]
fn default_settings_are_weekdays() {
    let s = default_scheduling_settings(9);
    assert_eq!(s.org_id, 9);
    assert_eq!(s.working_days, "Mon,Tue,Wed,Thu,Fri");
    assert_eq!((s.day_start_slot, s.day_end_slot, s.slot_duration), (0, 7, 60));
}

#[test]
fn working_days_are_split_and_trimmed() {
    assert_eq!(parse_working_days(" Mon , Wed,Sat "), vec!["Mon", "Wed", "Sat"]);
    assert_eq!(parse_working_days(""), vec![""]);
    assert_eq!(parse_working_days("Mon,,Tue"), vec!["Mon", "", "Tue"]);
    assert_eq!(org_working_days(&None), vec!["Mon", "Tue", "Wed", "Thu", "Fri"]);
    assert_eq!(org_working_days(&Some("Sun,Mon".to_string())), vec!["Sun", "Mon"]);
}

#[test]
fn csp_is_chosen_by_name() {
    assert!(wants_csp(&Some("csp".to_string())));
    assert!(!wants_csp(&Some("greedy".to_string())));
    assert!(!wants_csp(&None));
}

#[test]
fn plan_comes_from_cache_and_errors_become_text() {
    assert_eq!(get_org_plan("pro"), "pro");
    assert_eq!(db_err("disk full"), "disk full");
    assert_eq!(db_err(42), "42");
}

#[test]
fn preflight_lists_every_problem_in_order() {
    let c = DataCounts {
        courses_without_lecturer: 2,
        batches_without_courses: 1,
        lecturers_without_days: 3,
        lab_courses: 4,
        lab_rooms: 0,
        rooms: 0,
        batches: 0,
    };
    let w = preflight_warnings(&c);
    let got: Vec<(String, String, String)> =
        w.into_iter().map(|x| (x.severity, x.category, x.message)).collect();
    assert_eq!(
        got,
        vec![
            ("warning".to_string(), "courses".to_string(), "2 course(s) have no lecturer assigned".to_string()),
            ("error".to_string(), "batches".to_string(), "1 batch(es) have no courses enrolled — they will be skipped".to_string()),
            ("error".to_string(), "lecturers".to_string(), "3 lecturer(s) have no available days set — their courses cannot be scheduled".to_string()),
            ("error".to_string(), "rooms".to_string(), "4 lab course(s) exist but no lab rooms are configured".to_string()),
            ("error".to_string(), "rooms".to_string(), "No rooms configured — schedule cannot be generated".to_string()),
            ("error".to_string(), "batches".to_string(), "No batches configured — schedule cannot be generated".to_string()),
        ]
    );
}

#[test]
fn preflight_is_empty_for_clean_data() {
    let c = DataCounts {
        courses_without_lecturer: 0,
        batches_without_courses: 0,
        lecturers_without_days: 0,
        lab_courses: 3,
        lab_rooms: 1,
        rooms: 5,
        batches: 2,
    };
    assert!(preflight_warnings(&c).is_empty());
}

#[test]
fn data_health_sums_the_problems() {
    let c = DataCounts {
        courses_without_lecturer: 2,
        batches_without_courses: 1,
        lecturers_without_days: 3,
        lab_courses: 4,
        lab_rooms: 0,
        rooms: 1,
        batches: 1,
    };
    let h = data_health(&c);
    assert_eq!(h.courses_without_matching_rooms, 4);
    assert_eq!(h.total_warnings, 10);
    let c2 = DataCounts { lab_rooms: 2, ..c };
    let h2 = data_health(&c2);
    assert_eq!(h2.courses_without_matching_rooms, 0);
    assert_eq!(h2.total_warnings, 6);
}

#[test]
fn csv_columns() {
    assert_eq!(csv_time(0), "08:00-09:00");
    assert_eq!(csv_time(4), "13:00-14:00");
    assert_eq!(csv_time(9), "?-?");
    assert_eq!(csv_time(-1), "?-?");
    assert_eq!(csv_frequency(0), "weekly");
    assert_eq!(csv_frequency(1), "biweekly");
    let l = CsvLine {
        batch: "B1".into(),
        department: "CS".into(),
        course_code: "CS101".into(),
        course_name: "Intro".into(),
        class_type: "lecture".into(),
        lecturer: "Ada".into(),
        room: "R1".into(),
        day: "Mon".into(),
        time_slot: 3,
        week_parity: 0,
    };
    assert_eq!(csv_line(&l), "B1,CS,CS101,Intro,lecture,Ada,R1,Mon,11:00-12:00,weekly\n");
    let all = export_csv(&vec![l]);
    assert_eq!(
        all,
        format!("{}{}", csv_header(), "B1,CS,CS101,Intro,lecture,Ada,R1,Mon,11:00-12:00,weekly\n")
    );
    assert_eq!(export_csv(&vec![]), csv_header());
}

#[test]
fn semester_scope_follows_the_role() {
    assert_eq!(semester_scope(&sess("super_admin", 1, Some(1)), Some(5)), Some(5));
    assert_eq!(semester_scope(&sess("super_admin", 1, Some(1)), None), None);
    assert_eq!(semester_scope(&sess("admin", 2, Some(3)), Some(5)), Some(3));
}

#[test]
fn approval_requests_are_checked() {
    assert_eq!(
        check_approval_request(1, "account_unlock", &None).unwrap_err(),
        "A pending request of this type already exists. Please wait for super admin approval."
    );
    assert_eq!(
        check_approval_request(0, "password_reset", &Some("short".into())).unwrap_err(),
        "Password must be at least 8 characters"
    );
    assert_eq!(
        check_approval_request(0, "password_reset", &None).unwrap_err(),
        "Password must be at least 8 characters"
    );
    assert!(check_approval_request(0, "password_reset", &Some("long enough".into())).is_ok());
    assert!(check_approval_request(0, "account_unlock", &None).is_ok());
}

#[test]
fn approvals_apply_their_effect() {
    let payload = password_reset_payload("$2b$12$abc");
    assert_eq!(payload, r#"{"new_password_hash":"$2b$12$abc"}"#);
    match approval_effect(true, "password_reset", Some(4), &Some(payload)).unwrap() {
        ApprovalEffect::SetPassword(uid, h) => {
            assert_eq!(uid, 4);
            assert_eq!(h, "$2b$12$abc");
        }
        _ => panic!("expected a password change"),
    }
    assert!(matches!(approval_effect(true, "account_unlock", Some(4), &None).unwrap(), ApprovalEffect::Unlock(4)));
    assert!(matches!(approval_effect(false, "account_unlock", Some(4), &None).unwrap(), ApprovalEffect::Nothing));
    assert!(matches!(approval_effect(true, "account_unlock", None, &None).unwrap(), ApprovalEffect::Nothing));
    assert!(matches!(approval_effect(true, "other", Some(4), &None).unwrap(), ApprovalEffect::Nothing));
    assert!(matches!(
        approval_effect(true, "password_reset", Some(4), &Some("{}".into())).unwrap(),
        ApprovalEffect::Nothing
    ));
    assert!(approval_effect(true, "password_reset", Some(4), &Some("not json".into())).is_err());
}

#[test]
fn scope_clause_keeps_queries_to_one_organization() {
    assert_eq!(scope_clause(Some(7), "c.org_id"), " WHERE c.org_id=7");
    assert_eq!(scope_clause(Some(-12), "org_id"), " WHERE org_id=-12");
    assert_eq!(scope_clause(None, "org_id"), "");
}
