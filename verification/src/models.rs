//! Domain records shared by the scheduler, the hub and the desktop app.

use vstd::prelude::*;

verus! {

// ─── Organization ─────────────────────────────────────────────────────────────

/// An organization (university, college, school, institute).
#[derive(Debug, Clone)]
pub struct Organization {
    pub id: i64,
    pub name: String,
    pub org_type: String,
    pub address: Option<String>,
    pub contact_email: Option<String>,
}

/// Fields of an organization to create or update.
#[derive(Debug, Clone)]
pub struct NewOrganization {
    pub name: String,
    pub org_type: String,
    pub address: Option<String>,
    pub contact_email: Option<String>,
}

// ─── User / Auth ──────────────────────────────────────────────────────────────

/// A user account as listed to administrators.
#[derive(Debug, Clone)]
pub struct User {
    pub id: i64,
    pub username: String,
    pub display_name: String,
    pub role: String,
    pub org_id: Option<i64>,
    pub org_name: Option<String>,
    pub is_active: bool,
}

/// Fields of a user account to create.
#[derive(Debug, Clone)]
pub struct NewUser {
    pub username: String,
    pub display_name: String,
    pub password: String,
    pub role: String,
    pub org_id: Option<i64>,
}

/// Credentials submitted at sign-in.
#[derive(Debug, Clone)]
pub struct LoginRequest {
    pub username: String,
    pub password: String,
}

/// The signed-in user carried by a session.
#[derive(Debug, Clone)]
pub struct SessionPayload {
    pub user_id: i64,
    pub username: String,
    pub display_name: String,
    pub role: String,
    pub org_id: Option<i64>,
}

// ─── Semester ─────────────────────────────────────────────────────────────────

/// A semester with its teaching, exam and break blocks.
#[derive(Debug, Clone)]
pub struct Semester {
    pub id: i64,
    pub org_id: i64,
    pub org_name: Option<String>,
    pub name: String,
    pub start_date: String,
    pub end_date: String,
    pub student_capacity: Option<i64>,
    pub teaching_weeks: i64,
    pub midterm_start: Option<String>,
    pub midterm_end: Option<String>,
    pub study_break_start: Option<String>,
    pub study_break_end: Option<String>,
    pub final_start: Option<String>,
    pub final_end: Option<String>,
    pub breaks_json: String,
    pub status: String,
}

/// Fields of a semester to create or update.
#[derive(Debug, Clone)]
pub struct NewSemester {
    pub org_id: i64,
    pub name: String,
    pub start_date: String,
    pub end_date: String,
    pub student_capacity: Option<i64>,
    pub teaching_weeks: i64,
    pub midterm_start: Option<String>,
    pub midterm_end: Option<String>,
    pub study_break_start: Option<String>,
    pub study_break_end: Option<String>,
    pub final_start: Option<String>,
    pub final_end: Option<String>,
    pub breaks_json: String,
    pub status: String,
}

// ─── Course ───────────────────────────────────────────────────────────────────

/// A course taught to batches for a number of hours per week.
#[derive(Debug, Clone)]
pub struct Course {
    pub id: i64,
    pub code: String,
    pub name: String,
    pub hours_per_week: i64,
    pub room_type: String,
    pub class_type: String,   // lecture | lab | tutorial
    pub frequency: String,    // weekly | biweekly
    pub lecturer_id: Option<i64>,
    pub lecturer_name: Option<String>,
    pub org_id: Option<i64>,
}

/// Fields of a course to create or update.
#[derive(Debug, Clone)]
pub struct NewCourse {
    pub code: String,
    pub name: String,
    pub hours_per_week: i64,
    pub room_type: String,
    pub class_type: String,
    pub frequency: String,
    pub lecturer_id: Option<i64>,
    pub org_id: Option<i64>,
}

// ─── Lecturer ─────────────────────────────────────────────────────────────────

/// A lecturer with availability, load limits and time preferences.
#[derive(Debug, Clone)]
pub struct Lecturer {
    pub id: i64,
    pub name: String,
    pub email: Option<String>,
    pub available_days: String,
    pub max_hours_per_day: i64,
    pub max_hours_per_week: i64,
    pub org_id: Option<i64>,
    // Soft constraints used by the scheduler.
    pub preferred_slots_json: Option<String>,   // {"Mon":"morning","Tue":"afternoon",...}
    pub blackout_json: Option<String>,          // [{"day":"Mon","slot":null},...]
    pub max_consecutive_hours: i64,
}


/// Fields of a lecturer to create or update.
#[derive(Debug, Clone)]
pub struct NewLecturer {
    pub name: String,
    pub email: Option<String>,
    pub available_days: String,
    pub max_hours_per_day: i64,
    pub max_hours_per_week: i64,
    pub org_id: Option<i64>,
    pub preferred_slots_json: Option<String>,
    pub blackout_json: Option<String>,
    pub max_consecutive_hours: i64,
}

// ─── Room ─────────────────────────────────────────────────────────────────────

/// A room with a type, a capacity and the days it can be booked.
#[derive(Debug, Clone)]
pub struct Room {
    pub id: i64,
    pub name: String,
    pub capacity: i64,
    pub room_type: String,
    pub available_days: String,
    pub org_id: Option<i64>,
}

/// Fields of a room to create or update.
#[derive(Debug, Clone)]
pub struct NewRoom {
    pub name: String,
    pub capacity: i64,
    pub room_type: String,
    pub available_days: String,
    pub org_id: Option<i64>,
}

// ─── Batch ────────────────────────────────────────────────────────────────────

/// A group of students enrolled in a list of courses.
#[derive(Debug, Clone)]
pub struct Batch {
    pub id: i64,
    pub name: String,
    pub department: String,
    pub semester: i64,
    pub size: i64,
    pub course_ids: Vec<i64>,
    pub org_id: Option<i64>,
    pub semester_id: Option<i64>,
}

/// Fields of a batch to create or update.
#[derive(Debug, Clone)]
pub struct NewBatch {
    pub name: String,
    pub department: String,
    pub semester: i64,
    pub size: i64,
    pub course_ids: Vec<i64>,
    pub org_id: Option<i64>,
    pub semester_id: Option<i64>,
}

// ─── Schedule ─────────────────────────────────────────────────────────────────

/// One placed class of a stored schedule, with display names.
#[derive(Debug, Clone)]
pub struct ScheduleEntry {
    pub id: i64,
    pub schedule_id: i64,
    pub course_id: i64,
    pub course_code: String,
    pub course_name: String,
    pub class_type: String,
    pub frequency: String,
    pub week_parity: i64,
    pub lecturer_id: i64,
    pub lecturer_name: String,
    pub room_id: i64,
    pub room_name: String,
    pub batch_id: i64,
    pub batch_name: String,
    pub department: String,
    pub day: String,
    pub time_slot: i64,
}

/// A generated timetable.
#[derive(Debug, Clone)]
pub struct Schedule {
    pub id: i64,
    pub name: String,
    pub created_at: String,
    pub is_active: bool,
    pub status: String,          // 'draft' | 'published'
    pub entry_count: i64,
    pub semester_id: Option<i64>,
    pub semester_name: Option<String>,
    pub description: Option<String>,
}


// ─── Scheduling Settings ──────────────────────────────────────────────────────

/// Per-organization scheduling defaults.
#[derive(Debug, Clone)]
pub struct OrgSchedulingSettings {
    pub org_id: i64,
    pub working_days: String,
    pub day_start_slot: i64,
    pub day_end_slot: i64,
    pub slot_duration: i64,
}

// ─── App Info ─────────────────────────────────────────────────────────────────

/// Version and size figures of an installation.
#[derive(Debug, Clone)]
pub struct AppInfo {
    pub version: String,
    pub db_size_bytes: u64,
    pub user_count: i64,
    pub org_count: i64,
    pub schedule_count: i64,
}

// ─── Conflict / unscheduled report ───────────────────────────────────────────

/// A course of a batch that could not be fully placed, and why.
#[derive(Debug, Clone)]
pub struct UnscheduledItem {
    pub batch_name: String,
    pub course_code: String,
    pub course_name: String,
    pub hours_needed: i64,
    pub reason: String,
}




// ─── Manual schedule entry edit ───────────────────────────────────────────────

/// A manual move of a schedule entry.
#[derive(Debug, Clone)]
pub struct UpdateScheduleEntryReq {
    pub day: String,
    pub time_slot: i64,
    pub room_id: i64,
}

// ─── Audit log ────────────────────────────────────────────────────────────────

/// One row of the audit log.
#[derive(Debug, Clone)]
pub struct AuditEntry {
    pub id: i64,
    pub user_id: Option<i64>,
    pub username: String,
    pub action: String,        // 'create' | 'update' | 'delete' | 'generate' | 'publish' | 'import'
    pub entity_type: String,   // 'lecturer' | 'course' | 'room' | 'batch' | 'user' | 'schedule'
    pub entity_id: Option<i64>,
    pub details_json: Option<String>,
    pub created_at: String,
}

// ─── Recovery / Password Reset ────────────────────────────────────────────────

/// The recovery code shown once when recovery is set up.
#[derive(Debug, Clone)]
pub struct RecoverySetup {
    pub recovery_code: String,  // displayed once to super-admin, must be written down
}

/// Security question and answer for password recovery.
#[derive(Debug, Clone)]
pub struct SetupRecoveryRequest {
    pub security_question: String,
    pub security_answer: String,
}

/// A password reset backed by the recovery code.
#[derive(Debug, Clone)]
pub struct ResetPasswordWithCodeRequest {
    pub recovery_code: String,
    pub new_password: String,
}

/// A password reset backed by the security answer.
#[derive(Debug, Clone)]
pub struct ResetPasswordWithAnswerRequest {
    pub security_answer: String,
    pub new_password: String,
}

// ─── Pre-flight / Data-health ─────────────────────────────────────────────────

/// A problem in the data found before generating a schedule.
#[derive(Debug, Clone)]
pub struct PreflightWarning {
    pub severity: String,   // "error" | "warning"
    pub category: String,   // "courses" | "lecturers" | "rooms" | "batches"
    pub message: String,
}

/// Counts of data problems that block scheduling.
#[derive(Debug, Clone)]
pub struct DataHealth {
    pub courses_without_lecturers: i64,
    pub courses_without_matching_rooms: i64,
    pub batches_without_courses: i64,
    pub lecturers_unavailable: i64,   // available_days is empty
    pub total_warnings: i64,
}

// ─── Approval Requests ────────────────────────────────────────────────────────

/// A request that waits for a super admin's decision.
#[derive(Debug, Clone)]
pub struct ApprovalRequest {
    pub id: i64,
    pub requester_user_id: Option<i64>,
    pub requester_username: String,
    pub requester_display_name: String,
    pub request_type: String,              // 'password_reset' | 'account_unlock'
    pub status: String,                    // 'pending' | 'approved' | 'rejected' | 'expired'
    pub rejection_reason: Option<String>,
    pub resolver_display_name: Option<String>,
    pub created_at: String,
    pub resolved_at: Option<String>,
    pub expires_at: String,
}

/// A new approval request.
#[derive(Debug, Clone)]
pub struct CreateApprovalReq {
    pub username: String,
    pub request_type: String,
    pub new_password: Option<String>,      // required for 'password_reset'
}

// ─── Bulk CSV import ──────────────────────────────────────────────────────────

/// A lecturer row of a CSV import.
#[derive(Debug, Clone)]
pub struct CsvLecturer {
    pub name: String,
    pub email: Option<String>,
    pub available_days: String,
    pub max_hours_per_day: i64,
    pub max_hours_per_week: i64,
}

/// A course row of a CSV import.
#[derive(Debug, Clone)]
pub struct CsvCourse {
    pub code: String,
    pub name: String,
    pub hours_per_week: i64,
    pub room_type: String,
    pub class_type: String,
    pub frequency: String,
    pub lecturer_email: Option<String>,
}

/// A room row of a CSV import.
#[derive(Debug, Clone)]
pub struct CsvRoom {
    pub name: String,
    pub capacity: i64,
    pub room_type: String,
    pub available_days: String,
}

/// Outcome of a CSV import.
#[derive(Debug, Clone)]
pub struct BulkImportResult {
    pub inserted: i64,
    pub skipped: i64,
    pub errors: Vec<String>,
}

/// Wall-clock label of a time slot.
pub open spec fn slot_label_spec(slot: i64) -> Seq<char> {
    if slot == 0 { "08:00–09:00"@ }
    else if slot == 1 { "09:00–10:00"@ }
    else if slot == 2 { "10:00–11:00"@ }
    else if slot == 3 { "11:00–12:00"@ }
    else if slot == 4 { "13:00–14:00"@ }
    else if slot == 5 { "14:00–15:00"@ }
    else if slot == 6 { "15:00–16:00"@ }
    else if slot == 7 { "16:00–17:00"@ }
    else { "Unknown"@ }
}

/// The eight teaching slots of a day, 0 (08:00) to 7 (16:00); slots 3 and 4
/// are separated by the lunch break.
pub open spec fn is_time_slot(slot: i64) -> bool {
    0 <= slot < 8
}

/// Wall-clock label of a time slot; "Unknown" outside the eight slots.
pub fn slot_label(slot: i64) -> (s: &'static str)
    ensures
        s@ == slot_label_spec(slot),
{
    if slot == 0 { "08:00–09:00" }
    else if slot == 1 { "09:00–10:00" }
    else if slot == 2 { "10:00–11:00" }
    else if slot == 3 { "11:00–12:00" }
    else if slot == 4 { "13:00–14:00" }
    else if slot == 5 { "14:00–15:00" }
    else if slot == 6 { "15:00–16:00" }
    else if slot == 7 { "16:00–17:00" }
    else { "Unknown" }
}

/// Default `max_consecutive_hours` of a new lecturer.
pub fn default_max_consecutive() -> (n: i64)
    ensures
        n == 3,
{
    3
}

} // verus!
