//! Bulk CSV import of lecturers, rooms and courses: what happens to each row,
//! and the tally that the import reports back.
//!
//! The caller walks the rows, asks the database whether a row's key is already
//! taken, calls [`import_step`], performs the insert it asks for, and records
//! what happened as a [`RowOutcome`]. [`tally_import`] then turns the outcomes
//! into the reported [`BulkImportResult`].

use vstd::prelude::*;
use crate::models::BulkImportResult;
use crate::text::{trim, trim_str, decimal, int_to_string};

verus! {

/// What the import does with one row.
#[derive(Debug, Clone, Copy, PartialEq, Eq, Structural)]
pub enum ImportStep {
    /// The key (name or code) is empty after trimming: the row is skipped
    /// and reported.
    Blank,
    /// A row with the same key already exists: the row is skipped quietly.
    Duplicate,
    /// The row is inserted.
    Insert,
}

/// The decision for a row whose key is `key` and of which `existing` rows
/// with the trimmed key are already stored.
pub open spec fn import_step_spec(key: Seq<char>, existing: i64) -> ImportStep {
    if trim(key).len() == 0 {
        ImportStep::Blank
    } else if existing > 0 {
        ImportStep::Duplicate
    } else {
        ImportStep::Insert
    }
}

/// Decides what the import does with a row whose key is `key`, given how many
/// stored rows already carry the trimmed key.
pub fn import_step(key: &str, existing: i64) -> (s: ImportStep)
    ensures
        s == import_step_spec(key@, existing),
{
    let t = trim_str(key);
    if t.as_str().unicode_len() == 0 {
        ImportStep::Blank
    } else if existing > 0 {
        ImportStep::Duplicate
    } else {
        ImportStep::Insert
    }
}

/// What happened to one row, or a note the import adds about a row.
#[derive(Debug, Clone)]
pub enum RowOutcome {
    /// Skipped because its key was empty.
    Blank,
    /// Skipped because its key was already taken.
    Duplicate,
    /// Inserted.
    Inserted,
    /// The database refused the insert; `label` is the row's key as given.
    Failed { label: String, error: String },
    /// A course row names a lecturer e-mail that matches nobody; the course
    /// is imported without a lecturer (its insert is a separate outcome).
    LecturerMissing { code: String, email: String },
}

/// The message a row outcome adds to the report, if any. `field` names the
/// key column ("name" or "code").
pub open spec fn outcome_message(o: RowOutcome, field: Seq<char>) -> Option<Seq<char>> {
    match o {
        RowOutcome::Blank => Some("Row skipped: "@ + field + " is empty"@),
        RowOutcome::Failed { label, error } => Some(label@ + ": "@ + error@),
        RowOutcome::LecturerMissing { code, email } => Some(
            code@ + ": lecturer email '"@ + email@ + "' not found — imported without lecturer"@,
        ),
        _ => None,
    }
}

/// Number of inserted rows among `os`.
pub open spec fn count_inserted(os: Seq<RowOutcome>) -> int
    decreases os.len(),
{
    if os.len() == 0 {
        0
    } else {
        count_inserted(os.drop_last()) + if os.last() is Inserted { 1int } else { 0int }
    }
}

/// Number of skipped rows (blank or duplicate) among `os`.
pub open spec fn count_skipped(os: Seq<RowOutcome>) -> int
    decreases os.len(),
{
    if os.len() == 0 {
        0
    } else {
        count_skipped(os.drop_last()) + if os.last() is Blank || os.last() is Duplicate {
            1int
        } else {
            0int
        }
    }
}

/// Number of refused inserts among `os`.
pub open spec fn count_failed(os: Seq<RowOutcome>) -> int
    decreases os.len(),
{
    if os.len() == 0 {
        0
    } else {
        count_failed(os.drop_last()) + if os.last() is Failed { 1int } else { 0int }
    }
}

/// Number of outcomes that stand for a row (every outcome but a note).
pub open spec fn count_rows(os: Seq<RowOutcome>) -> int
    decreases os.len(),
{
    if os.len() == 0 {
        0
    } else {
        count_rows(os.drop_last()) + if os.last() is LecturerMissing { 0int } else { 1int }
    }
}

/// The report's messages, in the order of the outcomes.
pub open spec fn report_messages(os: Seq<RowOutcome>, field: Seq<char>) -> Seq<Seq<char>>
    decreases os.len(),
{
    if os.len() == 0 {
        Seq::empty()
    } else {
        let before = report_messages(os.drop_last(), field);
        match outcome_message(os.last(), field) {
            Some(m) => before.push(m),
            None => before,
        }
    }
}

proof fn lemma_counts_bounded(os: Seq<RowOutcome>)
    ensures
        0 <= count_inserted(os) <= os.len(),
        0 <= count_skipped(os) <= os.len(),
        count_inserted(os) + count_skipped(os) <= os.len(),
    decreases os.len(),
{
    if os.len() > 0 {
        lemma_counts_bounded(os.drop_last());
    }
}

/// Every row ends in exactly one way: inserted, skipped, or refused by the
/// database.
pub proof fn lemma_every_row_counted_once(os: Seq<RowOutcome>)
    ensures
        count_inserted(os) + count_skipped(os) + count_failed(os) == count_rows(os),
    decreases os.len(),
{
    if os.len() > 0 {
        lemma_every_row_counted_once(os.drop_last());
    }
}

/// The message of one outcome, built.
fn message_of(o: &RowOutcome, field: &str) -> (m: Option<String>)
    ensures
        m.deep_view() == outcome_message(*o, field@),
{
    match o {
        RowOutcome::Blank => {
            let mut r = String::new();
            r.append("Row skipped: ");
            r.append(field);
            r.append(" is empty");
            assert(r@ =~= "Row skipped: "@ + field@ + " is empty"@);
            Some(r)
        },
        RowOutcome::Failed { label, error } => {
            let mut r = String::new();
            r.append(label.as_str());
            r.append(": ");
            r.append(error.as_str());
            assert(r@ =~= label@ + ": "@ + error@);
            Some(r)
        },
        RowOutcome::LecturerMissing { code, email } => {
            let mut r = String::new();
            r.append(code.as_str());
            r.append(": lecturer email '");
            r.append(email.as_str());
            r.append("' not found — imported without lecturer");
            assert(r@ =~= code@ + ": lecturer email '"@ + email@
                + "' not found — imported without lecturer"@);
            Some(r)
        },
        _ => None,
    }
}

/// The report of an import whose rows ended as `outcomes`: how many rows were
/// inserted, how many skipped, and the messages, in order. `field` names the
/// key column ("name" for lecturers and rooms, "code" for courses).
pub fn tally_import(outcomes: &Vec<RowOutcome>, field: &str) -> (r: BulkImportResult)
    requires
        outcomes.len() <= i64::MAX,
    ensures
        r.inserted == count_inserted(outcomes@),
        r.skipped == count_skipped(outcomes@),
        r.errors.deep_view() == report_messages(outcomes@, field@),
{
    let mut inserted: i64 = 0;
    let mut skipped: i64 = 0;
    let mut errors: Vec<String> = Vec::new();
    let n = outcomes.len();
    let mut i: usize = 0;
    while i < n
        invariant
            n == outcomes@.len(),
            n <= i64::MAX,
            i <= n,
            inserted == count_inserted(outcomes@.subrange(0, i as int)),
            skipped == count_skipped(outcomes@.subrange(0, i as int)),
            errors.deep_view() == report_messages(outcomes@.subrange(0, i as int), field@),
        decreases n - i,
    {
        let ghost before = outcomes@.subrange(0, i as int);
        let ghost after = outcomes@.subrange(0, i + 1);
        proof {
            assert(after.drop_last() =~= before);
            assert(after.last() == outcomes@[i as int]);
            lemma_counts_bounded(before);
        }
        let o = &outcomes[i];
        match o {
            RowOutcome::Inserted => {
                inserted = inserted + 1;
            },
            RowOutcome::Blank => {
                skipped = skipped + 1;
            },
            RowOutcome::Duplicate => {
                skipped = skipped + 1;
            },
            _ => {},
        }
        let m = message_of(o, field);
        match m {
            Some(text) => {
                errors.push(text);
            },
            None => {},
        }
        proof {
            assert(errors.deep_view() =~= report_messages(after, field@));
        }
        i = i + 1;
    }
    proof {
        assert(outcomes@.subrange(0, n as int) =~= outcomes@);
    }
    BulkImportResult { inserted, skipped, errors }
}

/// The audit-log detail of an import: `{"count":N}` when any row was
/// inserted; an import that inserted nothing is not logged.
pub open spec fn import_audit_text(inserted: i64) -> Option<Seq<char>> {
    if inserted > 0 {
        Some("{\"count\":"@ + decimal(inserted as int) + "}"@)
    } else {
        None
    }
}

/// The audit-log detail of an import that inserted `inserted` rows.
pub fn import_audit_detail(inserted: i64) -> (r: Option<String>)
    ensures
        r.deep_view() == import_audit_text(inserted),
{
    if inserted > 0 {
        let mut r = String::new();
        r.append("{\"count\":");
        let n = int_to_string(inserted);
        r.append(n.as_str());
        r.append("}");
        assert(r@ =~= "{\"count\":"@ + decimal(inserted as int) + "}"@);
        Some(r)
    } else {
        None
    }
}

/// The note a course row gets when it names a lecturer e-mail that matched
/// nobody (`lecturer_id` is the lookup's result); none otherwise.
pub fn missing_lecturer_note(code: &String, email: &Option<String>, lecturer_id: Option<i64>) -> (r: Option<RowOutcome>)
    ensures
        r matches Some(o) ==> (email is Some && lecturer_id is None && (o matches RowOutcome::LecturerMissing { code: c, email: e } && (c@ == code@ && e@ == email->0@))),
        r is None <==> (email is None || lecturer_id is Some),
{
    match (email, lecturer_id) {
        (Some(e), None) => Some(RowOutcome::LecturerMissing { code: code.clone(), email: e.clone() }),
        _ => None,
    }
}

} // verus!
