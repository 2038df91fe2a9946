use schedula::import::{import_audit_detail, import_step, missing_lecturer_note, tally_import, ImportStep, RowOutcome};

#[test]
fn blank_key_is_skipped_with_a_message() {
    assert_eq!(import_step("", 0), ImportStep::Blank);
    assert_eq!(import_step("   \t", 3), ImportStep::Blank);
}

#[test]
fn taken_key_is_a_duplicate() {
    assert_eq!(import_step("  Dr. Smith ", 1), ImportStep::Duplicate);
}

#[test]
fn fresh_key_is_inserted() {
    assert_eq!(import_step("CS101", 0), ImportStep::Insert);
}

#[test]
fn tally_counts_and_reports_in_order() {
    let outcomes = vec![
        RowOutcome::Inserted,
        RowOutcome::Blank,
        RowOutcome::Duplicate,
        RowOutcome::Failed { label: "Lab A".to_string(), error: "UNIQUE constraint failed".to_string() },
        RowOutcome::Inserted,
    ];
    let r = tally_import(&outcomes, "name");
    assert_eq!(r.inserted, 2);
    assert_eq!(r.skipped, 2);
    assert_eq!(
        r.errors,
        vec!["Row skipped: name is empty".to_string(), "Lab A: UNIQUE constraint failed".to_string()]
    );
}

#[test]
fn course_note_names_the_missing_lecturer() {
    let outcomes = vec![
        RowOutcome::LecturerMissing { code: "CS101".to_string(), email: "x@uni.edu".to_string() },
        RowOutcome::Inserted,
        RowOutcome::Blank,
    ];
    let r = tally_import(&outcomes, "code");
    assert_eq!(r.inserted, 1);
    assert_eq!(r.skipped, 1);
    assert_eq!(
        r.errors,
        vec![
            "CS101: lecturer email 'x@uni.edu' not found — imported without lecturer".to_string(),
            "Row skipped: code is empty".to_string(),
        ]
    );
}

#[test]
fn every_row_is_counted_once() {
    let outcomes = vec![
        RowOutcome::Inserted,
        RowOutcome::Failed { label: "R1".to_string(), error: "e".to_string() },
        RowOutcome::Duplicate,
        RowOutcome::Blank,
        RowOutcome::LecturerMissing { code: "C".to_string(), email: "m".to_string() },
        RowOutcome::Inserted,
    ];
    let r = tally_import(&outcomes, "code");
    let failed = outcomes.iter().filter(|o| matches!(o, RowOutcome::Failed { .. })).count() as i64;
    let rows = outcomes.iter().filter(|o| !matches!(o, RowOutcome::LecturerMissing { .. })).count() as i64;
    assert_eq!(r.inserted + r.skipped + failed, rows);
}

#[test]
fn empty_import_reports_nothing() {
    let r = tally_import(&Vec::new(), "name");
    assert_eq!(r.inserted, 0);
    assert_eq!(r.skipped, 0);
    assert!(r.errors.is_empty());
}

#[test]
fn audit_detail_only_when_rows_were_inserted() {
    assert_eq!(import_audit_detail(0), None);
    assert_eq!(import_audit_detail(12), Some("{\"count\":12}".to_string()));
}

#[test]
fn missing_lecturer_note_only_when_lookup_failed() {
    let code = "MA200".to_string();
    let email = Some("prof@uni.edu".to_string());
    assert!(missing_lecturer_note(&code, &None, None).is_none());
    assert!(missing_lecturer_note(&code, &email, Some(4)).is_none());
    match missing_lecturer_note(&code, &email, None) {
        Some(RowOutcome::LecturerMissing { code: c, email: e }) => {
            assert_eq!(c, "MA200");
            assert_eq!(e, "prof@uni.edu");
        }
        _ => panic!("expected a note"),
    }
}
