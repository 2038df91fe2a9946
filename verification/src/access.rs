//! Rules of the hub's request handlers that need no database: who may do
//! what, which organization a session sees, the checks made on input, and
//! the reports computed from counts the database returns.

use vstd::prelude::*;
use crate::models::{SessionPayload, PreflightWarning, DataHealth, OrgSchedulingSettings};
use vstd::string::StringSliceAdditionalSpecFns;
use vstd::utf8::encode_utf8;
use crate::text::{decimal, int_to_string, str_eq, split_on, trim, split_pieces, trim_str};

verus! {

// ── Sessions and roles ───────────────────────────────────────────────────────

/// An error turned into the message a handler returns (`e.to_string()`).
pub fn db_err<E: std::fmt::Display>(e: E) -> (r: String)
    ensures
        vstd::string::to_string_from_display_ensures::<E>(&e, r),
{
    e.to_string()
}

/// The plan an organization is on: the plan cached in memory after the
/// license token was verified (the stored plan column is never trusted).
pub fn get_org_plan(cached_plan: &str) -> (r: String)
    ensures
        r@ == cached_plan@,
{
    String::from_str(cached_plan)
}

/// The session belongs to the super admin.
pub open spec fn is_super_admin(sess: SessionPayload) -> bool {
    sess.role@ == "super_admin"@
}

/// Refuses a session that is not the super admin's.
pub fn require_super_admin(sess: &SessionPayload) -> (r: Result<(), String>)
    ensures
        r is Ok <==> is_super_admin(*sess),
        r matches Err(m) ==> m@ == "Super admin access required"@,
{
    if !str_eq(sess.role.as_str(), "super_admin") {
        proof {
            reveal_strlit("super_admin");
        }
        return Err(String::from_str("Super admin access required"));
    }
    proof {
        reveal_strlit("super_admin");
    }
    Ok(())
}

/// The organization a session's queries are limited to: none for the super
/// admin (who sees every organization), else the session's organization.
pub fn org_id_filter(sess: &SessionPayload) -> (r: Option<i64>)
    ensures
        r == (if is_super_admin(*sess) { None } else { sess.org_id }),
{
    proof {
        reveal_strlit("super_admin");
    }
    if str_eq(sess.role.as_str(), "super_admin") {
        None
    } else {
        sess.org_id
    }
}

/// The SQL condition that limits a query to one organization: for an
/// organization `id`, ` WHERE <column>=<id>`; nothing when unlimited.
pub open spec fn scope_clause_text(org_id: Option<i64>, column: Seq<char>) -> Seq<char> {
    match org_id {
        Some(id) => " WHERE "@ + column + "="@ + decimal(id as int),
        None => Seq::<char>::empty(),
    }
}

/// Builds the condition that keeps a query to the organization `org_id`
/// (see `org_id_filter`) on the given column.
pub fn scope_clause(org_id: Option<i64>, column: &str) -> (r: String)
    ensures
        r@ == scope_clause_text(org_id, column@),
{
    match org_id {
        Some(id) => {
            let mut s = String::from_str(" WHERE ");
            s.append(column);
            s.append("=");
            let d = int_to_string(id);
            s.append(d.as_str());
            proof {
                reveal_strlit(" WHERE ");
                reveal_strlit("=");
            }
            s
        },
        None => String::new(),
    }
}

/// The checks made before the number of admins allowed is changed: only
/// the super admin may change it, and it must lie between 1 and 50.
pub fn check_max_admins(sess: &SessionPayload, max: i64) -> (r: Result<(), String>)
    ensures
        r is Ok <==> is_super_admin(*sess) && 1 <= max <= 50,
        r matches Err(m) ==> m@ == (if !is_super_admin(*sess) {
            "Super admin access required"@
        } else if max < 1 {
            "Max admins must be at least 1."@
        } else {
            "Max admins cannot exceed 50."@
        }),
{
    match require_super_admin(sess) {
        Err(e) => return Err(e),
        Ok(()) => {},
    }
    if max < 1 {
        return Err(String::from_str("Max admins must be at least 1."));
    }
    if max > 50 {
        return Err(String::from_str("Max admins cannot exceed 50."));
    }
    Ok(())
}

/// The checks made before a user is deleted or deactivated: only the super
/// admin may, and not on their own account (`own_account_error` is the
/// message for that case).
pub fn check_other_user(sess: &SessionPayload, user_id: i64, own_account_error: &str) -> (r: Result<(), String>)
    ensures
        r is Ok <==> is_super_admin(*sess) && sess.user_id != user_id,
        r matches Err(m) ==> m@ == (if !is_super_admin(*sess) {
            "Super admin access required"@
        } else {
            own_account_error@
        }),
{
    match require_super_admin(sess) {
        Err(e) => return Err(e),
        Ok(()) => {},
    }
    if sess.user_id == user_id {
        return Err(String::from_str(own_account_error));
    }
    Ok(())
}

/// Message for a password shorter than `min` bytes.
pub open spec fn short_password_message(min: usize) -> Seq<char> {
    "Password must be at least "@ + decimal(min as int) + " characters"@
}

/// Refuses a password shorter than `min` bytes (its UTF-8 length, as
/// `str::len` counts).
pub fn check_password_length(password: &str, min: usize) -> (r: Result<(), String>)
    requires
        min <= i64::MAX,
    ensures
        r is Ok <==> password.spec_bytes().len() >= min,
        r matches Err(m) ==> m@ == short_password_message(min),
{
    if password.as_bytes().len() < min {
        let mut m = String::from_str("Password must be at least ");
        let d = int_to_string(min as i64);
        m.append(d.as_str());
        m.append(" characters");
        return Err(m);
    }
    Ok(())
}

/// The organization whose semesters a session lists: the one asked for
/// when the super admin asks, else the session's own.
pub fn semester_scope(sess: &SessionPayload, requested: Option<i64>) -> (r: Option<i64>)
    ensures
        r == (if is_super_admin(*sess) { requested } else { sess.org_id }),
{
    proof {
        reveal_strlit("super_admin");
    }
    if str_eq(sess.role.as_str(), "super_admin") {
        requested
    } else {
        sess.org_id
    }
}

// ── Approval requests ────────────────────────────────────────────────────────

/// What `serde_json` reads from a request payload: the string under
/// `"new_password_hash"` if there is one (`None` when the field is missing
/// or not a string), or the text of the parse error.
pub uninterp spec fn payload_hash_field(payload: Seq<char>) -> Result<Option<Seq<char>>, Seq<char>>;

/// The JSON text that `serde_json` writes for `{"new_password_hash": hash}`.
pub uninterp spec fn hash_payload_text(hash: Seq<char>) -> Seq<char>;

/// Calls `serde_json::from_str::<serde_json::Value>` and reads the
/// `"new_password_hash"` field with `as_str`. Claimed: the outcome is
/// `payload_hash_field` of the payload.
#[verifier::external_body]
fn read_payload_hash(payload: &str) -> (r: Result<Option<String>, String>)
    ensures
        match r {
            Ok(Some(h)) => payload_hash_field(payload@) == Ok::<Option<Seq<char>>, Seq<char>>(Some(h@)),
            Ok(None) => payload_hash_field(payload@) == Ok::<Option<Seq<char>>, Seq<char>>(None),
            Err(e) => payload_hash_field(payload@) == Err::<Option<Seq<char>>, Seq<char>>(e@),
        },
{
    match serde_json::from_str::<serde_json::Value>(payload) {
        Ok(v) => Ok(v["new_password_hash"].as_str().map(String::from)),
        Err(e) => Err(e.to_string()),
    }
}

/// Builds the object `{"new_password_hash": hash}` as a `serde_json::Value`
/// and writes it with `to_string`. Claimed: the text is
/// `hash_payload_text` of the hash.
#[verifier::external_body]
fn write_hash_payload(hash: &str) -> (r: String)
    ensures
        r@ == hash_payload_text(hash@),
{
    let mut m = serde_json::Map::new();
    m.insert(String::from("new_password_hash"), serde_json::Value::String(String::from(hash)));
    serde_json::Value::Object(m).to_string()
}

/// The payload stored with a password-reset request.
pub fn password_reset_payload(hash: &str) -> (r: String)
    ensures
        r@ == hash_payload_text(hash@),
{
    write_hash_payload(hash)
}

/// The checks on a new approval request: no request of the same type may
/// be pending, and a password reset needs a new password of at least 8
/// bytes.
pub fn check_approval_request(pending_same_type: i64, request_type: &str, new_password: &Option<String>) -> (r: Result<(), String>)
    ensures
        pending_same_type > 0 ==> (r matches Err(m) && m@
            == "A pending request of this type already exists. Please wait for super admin approval."@),
        pending_same_type <= 0 && request_type@ == "password_reset"@ && (match new_password {
            Some(p) => encode_utf8(p@).len() < 8,
            None => true,
        }) ==> (r matches Err(m) && m@ == short_password_message(8)),
        r is Ok <==> pending_same_type <= 0 && (request_type@ == "password_reset"@ ==> (new_password matches Some(p)
            && encode_utf8(p@).len() >= 8)),
{
    if pending_same_type > 0 {
        return Err(
            String::from_str("A pending request of this type already exists. Please wait for super admin approval."),
        );
    }
    if str_eq(request_type, "password_reset") {
        let pw: &str = match new_password {
            Some(p) => p.as_str(),
            None => {
                proof {
                    reveal_strlit("");
                }
                ""
            },
        };
        match check_password_length(pw, 8) {
            Err(e) => return Err(e),
            Ok(()) => {},
        }
    }
    Ok(())
}

/// What approving or rejecting a request changes besides its status.
pub enum ApprovalEffect {
    /// Store this password hash for the user.
    SetPassword(i64, String),
    /// Re-activate the user.
    Unlock(i64),
    /// Only the request's status changes.
    Nothing,
}

/// The effect of resolving a request: an approved password reset stores
/// the hash from its payload (an unreadable payload is an error), an
/// approved unlock re-activates the user; a rejection, a request without a
/// requester or of another type changes nothing else.
pub fn approval_effect(approved: bool, request_type: &str, requester: Option<i64>, payload: &Option<String>) -> (r: Result<ApprovalEffect, String>)
    ensures
        !approved || requester is None ==> (r matches Ok(ApprovalEffect::Nothing)),
        approved && requester is Some && request_type@ == "account_unlock"@ ==> (r matches Ok(ApprovalEffect::Unlock(u))
            && u == requester->0),
        approved && requester is Some && request_type@ != "account_unlock"@ && request_type@ != "password_reset"@ ==> (
        r matches Ok(ApprovalEffect::Nothing)),
        approved && requester is Some && request_type@ == "password_reset"@ ==> match payload {
            None => r matches Ok(ApprovalEffect::Nothing),
            Some(p) => match payload_hash_field(p@) {
                Err(e) => r matches Err(m) && m@ == e,
                Ok(None) => r matches Ok(ApprovalEffect::Nothing),
                Ok(Some(h)) => r matches Ok(ApprovalEffect::SetPassword(u, x)) && u == requester->0 && x@ == h,
            },
        },
{
    if !approved {
        return Ok(ApprovalEffect::Nothing);
    }
    let uid = match requester {
        Some(u) => u,
        None => return Ok(ApprovalEffect::Nothing),
    };
    proof {
        reveal_strlit("password_reset");
        reveal_strlit("account_unlock");
        assert("account_unlock"@[0] != "password_reset"@[0]);
        assert("account_unlock"@ != "password_reset"@);
    }
    if str_eq(request_type, "password_reset") {
        match payload {
            None => Ok(ApprovalEffect::Nothing),
            Some(p) => match read_payload_hash(p.as_str()) {
                Err(e) => Err(e),
                Ok(None) => Ok(ApprovalEffect::Nothing),
                Ok(Some(h)) => Ok(ApprovalEffect::SetPassword(uid, h)),
            },
        }
    } else if str_eq(request_type, "account_unlock") {
        Ok(ApprovalEffect::Unlock(uid))
    } else {
        Ok(ApprovalEffect::Nothing)
    }
}

// ── Manual edits of a schedule ───────────────────────────────────────────────

/// The seven day names an entry may be moved to.
pub open spec fn is_week_day(day: Seq<char>) -> bool {
    ||| day == "Mon"@
    ||| day == "Tue"@
    ||| day == "Wed"@
    ||| day == "Thu"@
    ||| day == "Fri"@
    ||| day == "Sat"@
    ||| day == "Sun"@
}

/// Whether the text names a day of the week.
fn week_day(day: &str) -> (b: bool)
    ensures
        b == is_week_day(day@),
{
    str_eq(day, "Mon") || str_eq(day, "Tue") || str_eq(day, "Wed") || str_eq(day, "Thu") || str_eq(day, "Fri")
        || str_eq(day, "Sat") || str_eq(day, "Sun")
}

/// The first checks on moving an entry: the day must be a day of the week
/// and the slot one of the eight.
pub fn check_entry_move(day: &str, time_slot: i64) -> (r: Result<(), String>)
    ensures
        r is Ok <==> is_week_day(day@) && 0 <= time_slot <= 7,
        r matches Err(m) ==> m@ == (if !is_week_day(day@) {
            "Invalid day: "@ + day@
        } else {
            "Invalid time slot: "@ + decimal(time_slot as int)
        }),
{
    if !week_day(day) {
        let mut m = String::from_str("Invalid day: ");
        m.append(day);
        return Err(m);
    }
    if time_slot < 0 || time_slot > 7 {
        let mut m = String::from_str("Invalid time slot: ");
        let d = int_to_string(time_slot);
        m.append(d.as_str());
        return Err(m);
    }
    Ok(())
}

/// Refuses a room whose type is not the course's.
pub fn check_room_type(course_room_type: &str, room_type: &str) -> (r: Result<(), String>)
    ensures
        r is Ok <==> course_room_type@ == room_type@,
        r matches Err(m) ==> m@ == "Room type mismatch: course needs '"@ + course_room_type@
            + "' room, selected room is '"@ + room_type@ + "'"@,
{
    if !str_eq(room_type, course_room_type) {
        let mut m = String::from_str("Room type mismatch: course needs '");
        m.append(course_room_type);
        m.append("' room, selected room is '");
        m.append(room_type);
        m.append("'");
        return Err(m);
    }
    Ok(())
}

/// Refuses a move onto a (day, slot) where `conflicts` other entries of the
/// schedule share the lecturer, the batch or the room.
pub fn check_no_conflict(day: &str, time_slot: i64, conflicts: i64) -> (r: Result<(), String>)
    ensures
        r is Ok <==> conflicts <= 0,
        r matches Err(m) ==> m@ == "Conflict: another entry at "@ + day@ + " slot "@ + decimal(time_slot as int)
            + " uses the same lecturer, batch, or room"@,
{
    if conflicts > 0 {
        let mut m = String::from_str("Conflict: another entry at ");
        m.append(day);
        m.append(" slot ");
        let d = int_to_string(time_slot);
        m.append(d.as_str());
        m.append(" uses the same lecturer, batch, or room");
        return Err(m);
    }
    Ok(())
}

// ── Scheduling settings ──────────────────────────────────────────────────────

/// The settings of an organization that has saved none: Mon–Fri, slots 0
/// to 7, one-hour slots.
pub fn default_scheduling_settings(org_id: i64) -> (s: OrgSchedulingSettings)
    ensures
        s.org_id == org_id,
        s.working_days@ == "Mon,Tue,Wed,Thu,Fri"@,
        s.day_start_slot == 0,
        s.day_end_slot == 7,
        s.slot_duration == 60,
{
    OrgSchedulingSettings {
        org_id,
        working_days: String::from_str("Mon,Tue,Wed,Thu,Fri"),
        day_start_slot: 0,
        day_end_slot: 7,
        slot_duration: 60,
    }
}

/// The trimmed pieces of a comma-separated day list.
pub open spec fn day_list(text: Seq<char>) -> Seq<Seq<char>> {
    split_on(text, ',').map_values(|p: Seq<char>| trim(p))
}

/// The working days of a comma-separated list, each trimmed, in order.
pub fn parse_working_days(text: &str) -> (days: Vec<String>)
    ensures
        days.deep_view() == day_list(text@),
{
    let pieces = split_pieces(text, ',');
    let ghost pv = pieces.deep_view();
    let mut days: Vec<String> = Vec::new();
    let mut i: usize = 0;
    while i < pieces.len()
        invariant
            pv == pieces.deep_view(),
            pv == split_on(text@, ','),
            i <= pieces@.len(),
            days.deep_view() == pv.subrange(0, i as int).map_values(|p: Seq<char>| trim(p)),
        decreases pieces@.len() - i,
    {
        let t = trim_str(pieces[i].as_str());
        let ghost before = days.deep_view();
        days.push(t);
        proof {
            assert(pieces@[i as int]@ == pv[i as int]);
            assert(days.deep_view() =~= before.push(trim(pv[i as int])));
            assert(pv.subrange(0, i + 1).map_values(|p: Seq<char>| trim(p)) =~= pv.subrange(0, i as int).map_values(
                |p: Seq<char>| trim(p),
            ).push(trim(pv[i as int])));
        }
        i = i + 1;
    }
    assert(pv.subrange(0, i as int) =~= pv);
    days
}

/// The days a schedule is generated on: the organization's saved list when
/// there is one, else Mon–Fri.
pub fn org_working_days(saved: &Option<String>) -> (days: Vec<String>)
    ensures
        days.deep_view() == day_list(match saved {
            Some(s) => s@,
            None => "Mon,Tue,Wed,Thu,Fri"@,
        }),
{
    match saved {
        Some(s) => parse_working_days(s.as_str()),
        None => parse_working_days("Mon,Tue,Wed,Thu,Fri"),
    }
}

/// Whether the request asks for the constraint-satisfaction algorithm.
pub fn wants_csp(algorithm: &Option<String>) -> (b: bool)
    ensures
        b == (algorithm matches Some(a) && a@ == "csp"@),
{
    match algorithm {
        Some(a) => str_eq(a.as_str(), "csp"),
        None => false,
    }
}

// ── Pre-flight report ────────────────────────────────────────────────────────

/// Counts that the database returns for the pre-flight report, within the
/// organization a session sees.
#[derive(Clone, Copy, Debug)]
pub struct DataCounts {
    pub courses_without_lecturer: i64,
    pub batches_without_courses: i64,
    pub lecturers_without_days: i64,
    pub lab_courses: i64,
    pub lab_rooms: i64,
    pub rooms: i64,
    pub batches: i64,
}

/// A warning as (severity, category, message).
pub open spec fn warning_text(w: PreflightWarning) -> (Seq<char>, Seq<char>, Seq<char>) {
    (w.severity@, w.category@, w.message@)
}

/// The warnings, in order: courses without a lecturer (a warning); batches
/// without courses, lecturers without available days, lab courses without
/// any lab room, no rooms, no batches (errors).
pub open spec fn preflight_spec(c: DataCounts) -> Seq<(Seq<char>, Seq<char>, Seq<char>)> {
    let s0 = Seq::<(Seq<char>, Seq<char>, Seq<char>)>::empty();
    let s1 = if c.courses_without_lecturer > 0 {
        s0.push(("warning"@, "courses"@, decimal(c.courses_without_lecturer as int) + " course(s) have no lecturer assigned"@))
    } else {
        s0
    };
    let s2 = if c.batches_without_courses > 0 {
        s1.push(("error"@, "batches"@, decimal(c.batches_without_courses as int)
            + " batch(es) have no courses enrolled — they will be skipped"@))
    } else {
        s1
    };
    let s3 = if c.lecturers_without_days > 0 {
        s2.push(("error"@, "lecturers"@, decimal(c.lecturers_without_days as int)
            + " lecturer(s) have no available days set — their courses cannot be scheduled"@))
    } else {
        s2
    };
    let s4 = if c.lab_courses > 0 && c.lab_rooms == 0 {
        s3.push(("error"@, "rooms"@, decimal(c.lab_courses as int) + " lab course(s) exist but no lab rooms are configured"@))
    } else {
        s3
    };
    let s5 = if c.rooms == 0 {
        s4.push(("error"@, "rooms"@, "No rooms configured — schedule cannot be generated"@))
    } else {
        s4
    };
    if c.batches == 0 {
        s5.push(("error"@, "batches"@, "No batches configured — schedule cannot be generated"@))
    } else {
        s5
    }
}

/// The pre-flight report flags every problem it checks, and only those:
/// the courses warning (the only warning of that severity) is there exactly
/// when some course has no lecturer; each error is there when its problem
/// is; and the report is empty exactly when there is nothing to fix.
pub proof fn law_preflight_flags_problems(c: DataCounts)
    ensures
        (exists|i: int|
            0 <= i < preflight_spec(c).len() && #[trigger] preflight_spec(c)[i] == (
                "warning"@,
                "courses"@,
                decimal(c.courses_without_lecturer as int) + " course(s) have no lecturer assigned"@,
            )) <==> c.courses_without_lecturer > 0,
        c.batches_without_courses > 0 ==> preflight_spec(c).contains(
            ("error"@, "batches"@, decimal(c.batches_without_courses as int) + " batch(es) have no courses enrolled — they will be skipped"@),
        ),
        c.lecturers_without_days > 0 ==> preflight_spec(c).contains(
            (
                "error"@,
                "lecturers"@,
                decimal(c.lecturers_without_days as int) + " lecturer(s) have no available days set — their courses cannot be scheduled"@,
            ),
        ),
        c.lab_courses > 0 && c.lab_rooms == 0 ==> preflight_spec(c).contains(
            ("error"@, "rooms"@, decimal(c.lab_courses as int) + " lab course(s) exist but no lab rooms are configured"@),
        ),
        c.rooms == 0 ==> preflight_spec(c).contains(("error"@, "rooms"@, "No rooms configured — schedule cannot be generated"@)),
        c.batches == 0 ==> preflight_spec(c).contains(("error"@, "batches"@, "No batches configured — schedule cannot be generated"@)),
        preflight_spec(c).len() == 0 <==> (c.courses_without_lecturer <= 0 && c.batches_without_courses <= 0
            && c.lecturers_without_days <= 0 && !(c.lab_courses > 0 && c.lab_rooms == 0) && c.rooms != 0 && c.batches != 0),
{
    reveal_strlit("warning");
    reveal_strlit("error");
    assert("warning"@.len() != "error"@.len());
    let r = preflight_spec(c);
    let w = ("warning"@, "courses"@, decimal(c.courses_without_lecturer as int) + " course(s) have no lecturer assigned"@);
    if c.courses_without_lecturer > 0 {
        assert(r[0] == w);
    } else {
        assert forall|i: int| 0 <= i < r.len() implies #[trigger] r[i].0 == "error"@ by {
        }
        assert forall|i: int| 0 <= i < r.len() implies #[trigger] r[i] != w by {
            assert(r[i].0 == "error"@);
        }
    }
    let e1 = ("error"@, "batches"@, decimal(c.batches_without_courses as int) + " batch(es) have no courses enrolled — they will be skipped"@);
    let e2 = (
        "error"@,
        "lecturers"@,
        decimal(c.lecturers_without_days as int) + " lecturer(s) have no available days set — their courses cannot be scheduled"@,
    );
    let e3 = ("error"@, "rooms"@, decimal(c.lab_courses as int) + " lab course(s) exist but no lab rooms are configured"@);
    let e4 = ("error"@, "rooms"@, "No rooms configured — schedule cannot be generated"@);
    let e5 = ("error"@, "batches"@, "No batches configured — schedule cannot be generated"@);
    let s0 = Seq::<(Seq<char>, Seq<char>, Seq<char>)>::empty();
    let s1 = if c.courses_without_lecturer > 0 { s0.push(w) } else { s0 };
    let s2 = if c.batches_without_courses > 0 { s1.push(e1) } else { s1 };
    let s3 = if c.lecturers_without_days > 0 { s2.push(e2) } else { s2 };
    let s4 = if c.lab_courses > 0 && c.lab_rooms == 0 { s3.push(e3) } else { s3 };
    let s5 = if c.rooms == 0 { s4.push(e4) } else { s4 };
    let s6 = if c.batches == 0 { s5.push(e5) } else { s5 };
    assert(r == s6);
    if c.batches_without_courses > 0 {
        assert(s6[s1.len() as int] == e1);
    }
    if c.lecturers_without_days > 0 {
        assert(s6[s2.len() as int] == e2);
    }
    if c.lab_courses > 0 && c.lab_rooms == 0 {
        assert(s6[s3.len() as int] == e3);
    }
    if c.rooms == 0 {
        assert(s6[s4.len() as int] == e4);
    }
    if c.batches == 0 {
        assert(s6[s5.len() as int] == e5);
    }
}

/// A warning with a count in front of its message.
fn counted_warning(severity: &str, category: &str, count: i64, rest: &str) -> (w: PreflightWarning)
    ensures
        warning_text(w) == (severity@, category@, decimal(count as int) + rest@),
{
    let mut m = int_to_string(count);
    m.append(rest);
    PreflightWarning { severity: String::from_str(severity), category: String::from_str(category), message: m }
}

/// A warning with a fixed message.
fn plain_warning(severity: &str, category: &str, message: &str) -> (w: PreflightWarning)
    ensures
        warning_text(w) == (severity@, category@, message@),
{
    PreflightWarning {
        severity: String::from_str(severity),
        category: String::from_str(category),
        message: String::from_str(message),
    }
}

/// The problems to fix before a schedule is generated.
pub fn preflight_warnings(c: &DataCounts) -> (r: Vec<PreflightWarning>)
    ensures
        r@.map_values(|w: PreflightWarning| warning_text(w)) == preflight_spec(*c),
{
    let mut r: Vec<PreflightWarning> = Vec::new();
    let ghost s0 = Seq::<(Seq<char>, Seq<char>, Seq<char>)>::empty();
    assert(r@.map_values(|w: PreflightWarning| warning_text(w)) =~= s0);
    if c.courses_without_lecturer > 0 {
        r.push(counted_warning("warning", "courses", c.courses_without_lecturer, " course(s) have no lecturer assigned"));
    }
    let ghost s1 = r@.map_values(|w: PreflightWarning| warning_text(w));
    if c.batches_without_courses > 0 {
        r.push(counted_warning("error", "batches", c.batches_without_courses,
            " batch(es) have no courses enrolled — they will be skipped"));
    }
    assert(r@.map_values(|w: PreflightWarning| warning_text(w)) =~= (if c.batches_without_courses > 0 {
        s1.push(("error"@, "batches"@, decimal(c.batches_without_courses as int)
            + " batch(es) have no courses enrolled — they will be skipped"@))
    } else {
        s1
    }));
    let ghost s2 = r@.map_values(|w: PreflightWarning| warning_text(w));
    if c.lecturers_without_days > 0 {
        r.push(counted_warning("error", "lecturers", c.lecturers_without_days,
            " lecturer(s) have no available days set — their courses cannot be scheduled"));
    }
    assert(r@.map_values(|w: PreflightWarning| warning_text(w)) =~= (if c.lecturers_without_days > 0 {
        s2.push(("error"@, "lecturers"@, decimal(c.lecturers_without_days as int)
            + " lecturer(s) have no available days set — their courses cannot be scheduled"@))
    } else {
        s2
    }));
    let ghost s3 = r@.map_values(|w: PreflightWarning| warning_text(w));
    if c.lab_courses > 0 && c.lab_rooms == 0 {
        r.push(counted_warning("error", "rooms", c.lab_courses, " lab course(s) exist but no lab rooms are configured"));
    }
    assert(r@.map_values(|w: PreflightWarning| warning_text(w)) =~= (if c.lab_courses > 0 && c.lab_rooms == 0 {
        s3.push(("error"@, "rooms"@, decimal(c.lab_courses as int) + " lab course(s) exist but no lab rooms are configured"@))
    } else {
        s3
    }));
    let ghost s4 = r@.map_values(|w: PreflightWarning| warning_text(w));
    if c.rooms == 0 {
        r.push(plain_warning("error", "rooms", "No rooms configured — schedule cannot be generated"));
    }
    assert(r@.map_values(|w: PreflightWarning| warning_text(w)) =~= (if c.rooms == 0 {
        s4.push(("error"@, "rooms"@, "No rooms configured — schedule cannot be generated"@))
    } else {
        s4
    }));
    let ghost s5 = r@.map_values(|w: PreflightWarning| warning_text(w));
    if c.batches == 0 {
        r.push(plain_warning("error", "batches", "No batches configured — schedule cannot be generated"));
    }
    assert(r@.map_values(|w: PreflightWarning| warning_text(w)) =~= (if c.batches == 0 {
        s5.push(("error"@, "batches"@, "No batches configured — schedule cannot be generated"@))
    } else {
        s5
    }));
    r
}

/// Courses that cannot find a room: every lab course when there is no lab
/// room, else none.
pub open spec fn unmatched_courses(c: DataCounts) -> i64 {
    if c.lab_courses > 0 && c.lab_rooms == 0 { c.lab_courses } else { 0 }
}

/// The data-health summary: the four problem counts and their sum.
pub fn data_health(c: &DataCounts) -> (h: DataHealth)
    requires
        i64::MIN <= c.courses_without_lecturer + unmatched_courses(*c) + c.batches_without_courses
            + c.lecturers_without_days <= i64::MAX,
        i64::MIN <= c.courses_without_lecturer + unmatched_courses(*c) <= i64::MAX,
        i64::MIN <= c.courses_without_lecturer + unmatched_courses(*c) + c.batches_without_courses <= i64::MAX,
    ensures
        h.courses_without_lecturers == c.courses_without_lecturer,
        h.courses_without_matching_rooms == unmatched_courses(*c),
        h.batches_without_courses == c.batches_without_courses,
        h.lecturers_unavailable == c.lecturers_without_days,
        h.total_warnings == c.courses_without_lecturer + unmatched_courses(*c) + c.batches_without_courses
            + c.lecturers_without_days,
{
    let unmatched = if c.lab_courses > 0 && c.lab_rooms == 0 { c.lab_courses } else { 0 };
    DataHealth {
        courses_without_lecturers: c.courses_without_lecturer,
        courses_without_matching_rooms: unmatched,
        batches_without_courses: c.batches_without_courses,
        lecturers_unavailable: c.lecturers_without_days,
        total_warnings: c.courses_without_lecturer + unmatched + c.batches_without_courses + c.lecturers_without_days,
    }
}

// ── CSV export ───────────────────────────────────────────────────────────────

/// The header line of the CSV export.
pub fn csv_header() -> (h: &'static str)
    ensures
        h@ == "Batch,Department,Course Code,Course Name,Type,Lecturer,Room,Day,Time,Frequency\n"@,
{
    "Batch,Department,Course Code,Course Name,Type,Lecturer,Room,Day,Time,Frequency\n"
}

/// Start time of a slot, "?" outside the eight slots.
pub open spec fn slot_start(slot: i64) -> Seq<char> {
    if slot == 0 { "08:00"@ }
    else if slot == 1 { "09:00"@ }
    else if slot == 2 { "10:00"@ }
    else if slot == 3 { "11:00"@ }
    else if slot == 4 { "13:00"@ }
    else if slot == 5 { "14:00"@ }
    else if slot == 6 { "15:00"@ }
    else if slot == 7 { "16:00"@ }
    else { "?"@ }
}

/// End time of a slot, "?" outside the eight slots.
pub open spec fn slot_end(slot: i64) -> Seq<char> {
    if slot == 0 { "09:00"@ }
    else if slot == 1 { "10:00"@ }
    else if slot == 2 { "11:00"@ }
    else if slot == 3 { "12:00"@ }
    else if slot == 4 { "14:00"@ }
    else if slot == 5 { "15:00"@ }
    else if slot == 6 { "16:00"@ }
    else if slot == 7 { "17:00"@ }
    else { "?"@ }
}

fn start_label(slot: i64) -> (s: &'static str)
    ensures
        s@ == slot_start(slot),
{
    if slot == 0 { "08:00" }
    else if slot == 1 { "09:00" }
    else if slot == 2 { "10:00" }
    else if slot == 3 { "11:00" }
    else if slot == 4 { "13:00" }
    else if slot == 5 { "14:00" }
    else if slot == 6 { "15:00" }
    else if slot == 7 { "16:00" }
    else { "?" }
}

fn end_label(slot: i64) -> (s: &'static str)
    ensures
        s@ == slot_end(slot),
{
    if slot == 0 { "09:00" }
    else if slot == 1 { "10:00" }
    else if slot == 2 { "11:00" }
    else if slot == 3 { "12:00" }
    else if slot == 4 { "14:00" }
    else if slot == 5 { "15:00" }
    else if slot == 6 { "16:00" }
    else if slot == 7 { "17:00" }
    else { "?" }
}

/// The time column of a slot: "start-end".
pub fn csv_time(slot: i64) -> (t: String)
    ensures
        t@ == slot_start(slot) + "-"@ + slot_end(slot),
{
    let mut t = String::from_str(start_label(slot));
    t.append("-");
    t.append(end_label(slot));
    t
}

/// The frequency column: "weekly" for parity 0, else "biweekly".
pub fn csv_frequency(week_parity: i64) -> (f: &'static str)
    ensures
        f@ == (if week_parity == 0 { "weekly"@ } else { "biweekly"@ }),
{
    if week_parity == 0 { "weekly" } else { "biweekly" }
}

/// The columns of one exported entry, as the database returns them.
pub struct CsvLine {
    pub batch: String,
    pub department: String,
    pub course_code: String,
    pub course_name: String,
    pub class_type: String,
    pub lecturer: String,
    pub room: String,
    pub day: String,
    pub time_slot: i64,
    pub week_parity: i64,
}

/// One CSV line: the columns joined by commas, ended by a newline.
pub open spec fn csv_line_text(l: CsvLine) -> Seq<char> {
    l.batch@ + ","@ + l.department@ + ","@ + l.course_code@ + ","@ + l.course_name@ + ","@ + l.class_type@ + ","@
        + l.lecturer@ + ","@ + l.room@ + ","@ + l.day@ + ","@ + slot_start(l.time_slot) + "-"@ + slot_end(l.time_slot)
        + ","@ + (if l.week_parity == 0 { "weekly"@ } else { "biweekly"@ }) + "\n"@
}

/// One line of the CSV export.
pub fn csv_line(l: &CsvLine) -> (r: String)
    ensures
        r@ == csv_line_text(*l),
{
    let mut r = String::new();
    r.append(l.batch.as_str());
    r.append(",");
    r.append(l.department.as_str());
    r.append(",");
    r.append(l.course_code.as_str());
    r.append(",");
    r.append(l.course_name.as_str());
    r.append(",");
    r.append(l.class_type.as_str());
    r.append(",");
    r.append(l.lecturer.as_str());
    r.append(",");
    r.append(l.room.as_str());
    r.append(",");
    r.append(l.day.as_str());
    r.append(",");
    let t = csv_time(l.time_slot);
    r.append(t.as_str());
    r.append(",");
    r.append(csv_frequency(l.week_parity));
    r.append("\n");
    assert(r@ =~= csv_line_text(*l));
    r
}

/// The whole CSV export: the header, then one line per entry.
pub fn export_csv(lines: &Vec<CsvLine>) -> (r: String)
    ensures
        r@ == "Batch,Department,Course Code,Course Name,Type,Lecturer,Room,Day,Time,Frequency\n"@ + lines@.map_values(
            |l: CsvLine| csv_line_text(l),
        ).flatten(),
{
    let mut r = String::from_str(csv_header());
    let ghost h = "Batch,Department,Course Code,Course Name,Type,Lecturer,Room,Day,Time,Frequency\n"@;
    let mut i: usize = 0;
    assert(lines@.subrange(0, 0).map_values(|l: CsvLine| csv_line_text(l)).flatten() =~= Seq::<char>::empty());
    assert(r@ =~= h + lines@.subrange(0, 0).map_values(|l: CsvLine| csv_line_text(l)).flatten());
    while i < lines.len()
        invariant
            i <= lines@.len(),
            r@ == h + lines@.subrange(0, i as int).map_values(|l: CsvLine| csv_line_text(l)).flatten(),
        decreases lines@.len() - i,
    {
        let t = csv_line(&lines[i]);
        let ghost before = r@;
        r.append(t.as_str());
        proof {
            let a = lines@.subrange(0, i as int).map_values(|l: CsvLine| csv_line_text(l));
            let b = lines@.subrange(0, i + 1).map_values(|l: CsvLine| csv_line_text(l));
            assert(b =~= a.push(csv_line_text(lines@[i as int])));
            a.lemma_flatten_push(csv_line_text(lines@[i as int]));
            assert(r@ =~= h + b.flatten());
        }
        i = i + 1;
    }
    assert(lines@.subrange(0, i as int) =~= lines@);
    r
}

} // verus!
