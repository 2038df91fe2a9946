//! The constraint-satisfaction scheduler: the most constrained need is
//! placed first, its slots are tried least-constraining first, and a need
//! that finds no room for all its sessions may move an earlier class out of
//! the way (a bounded number of times).

use vstd::prelude::*;
use crate::models::{Batch, Course, Lecturer, Room, UnscheduledItem, is_time_slot};
use crate::rules::{blacked_out_spec, opt_text, exceeds_run, sort_slots, is_blacked_out, would_exceed_consecutive};
use crate::text::{list_has, list_contains};
use crate::timetable::{
    SchedulerInput, PlacedEntry, course_index, lecturer_index, day_load, week_load, day_slots, room_busy,
    lecturer_busy, batch_busy, count_day_load, count_week_load, collect_day_slots, room_is_busy,
    lecturer_is_busy, batch_is_busy, find_course, find_lecturer,
};
use crate::scheduler::{
    Need, first_day_pos, need_ok, needs_of, sessions_fit, build_needs, item_explains, partial_text, report,
    partial_reason, slot_open, lemma_slot_open_prefix,
};
use crate::timetable::no_double_booking;
use crate::rules::{slot_penalty, slot_penalty_spec, preferred_penalty, preferred_penalty_spec};
use crate::timetable::{
    room_fits, batch_day_count, count_batch_day, find_room, find_batch, batch_index, effective_days,
    respects_constraints, lemma_place_entry, lemma_remove_entry, resolve_days, ScheduleResult, lemma_batch_index,
    entry_ok,
};

verus! {

// ── Domain size ──────────────────────────────────────────────────────────────

/// A room that a need's class could use on a day: enough seats for the
/// batch and for the course's weekly hours, the course's room type, open
/// that day.
pub open spec fn domain_room(r: Room, batch_size: i64, c: Course, day: Seq<char>) -> bool {
    &&& r.capacity >= batch_size
    &&& r.room_type@ == c.room_type@
    &&& r.capacity >= c.hours_per_week
    &&& list_has(r.available_days@, day)
}

/// `(day, slot)` is still open to the need: the lecturer is available that
/// day, the day is not blacked out at both its first and its last slot, the
/// lecturer is under the daily limit, the slot is not blacked out, the
/// lecturer and the batch are free, the slot makes no run longer than the
/// lecturer's limit, and some room that fits is free.
pub open spec fn domain_cell(
    rooms: Seq<Room>,
    es: Seq<PlacedEntry>,
    batch_id: i64,
    batch_size: i64,
    c: Course,
    l: Lecturer,
    day: Seq<char>,
    slot: i64,
) -> bool {
    let bj = opt_text(l.blackout_json);
    &&& list_has(l.available_days@, day)
    &&& !(blacked_out_spec(bj, day, 0) && blacked_out_spec(bj, day, 7))
    &&& day_load(es, l.id, day) < l.max_hours_per_day
    &&& !blacked_out_spec(bj, day, slot)
    &&& !lecturer_busy(es, l.id, day, slot)
    &&& !batch_busy(es, batch_id, day, slot)
    &&& !exceeds_run(sort_slots(day_slots(es, l.id, day).push(slot)), l.max_consecutive_hours)
    &&& exists|r: int| 0 <= r < rooms.len() && domain_room(#[trigger] rooms[r], batch_size, c, day)
        && !room_busy(es, rooms[r].id, day, slot)
}

/// Open cells of a day among its first `n` slots.
pub open spec fn domain_slots(
    rooms: Seq<Room>,
    es: Seq<PlacedEntry>,
    batch_id: i64,
    batch_size: i64,
    c: Course,
    l: Lecturer,
    day: Seq<char>,
    n: int,
) -> nat
    decreases n,
{
    if n <= 0 {
        0
    } else {
        domain_slots(rooms, es, batch_id, batch_size, c, l, day, n - 1) + (if domain_cell(
            rooms,
            es,
            batch_id,
            batch_size,
            c,
            l,
            day,
            (n - 1) as i64,
        ) {
            1nat
        } else {
            0nat
        })
    }
}

/// Open cells over the days.
pub open spec fn domain_days(
    rooms: Seq<Room>,
    es: Seq<PlacedEntry>,
    batch_id: i64,
    batch_size: i64,
    c: Course,
    l: Lecturer,
    days: Seq<Seq<char>>,
) -> nat
    decreases days.len(),
{
    if days.len() == 0 {
        0
    } else {
        domain_days(rooms, es, batch_id, batch_size, c, l, days.drop_last()) + domain_slots(
            rooms,
            es,
            batch_id,
            batch_size,
            c,
            l,
            days.last(),
            8,
        )
    }
}

/// The number of still-open (day, slot) cells of a need; none once the
/// lecturer has reached the weekly limit.
pub open spec fn domain_spec(
    rooms: Seq<Room>,
    es: Seq<PlacedEntry>,
    batch_id: i64,
    batch_size: i64,
    c: Course,
    l: Lecturer,
    days: Seq<Seq<char>>,
) -> nat {
    if week_load(es, l.id) >= l.max_hours_per_week {
        0
    } else {
        domain_days(rooms, es, batch_id, batch_size, c, l, days)
    }
}

/// Whether some room fits the need on the day and is free at the slot.
fn some_domain_room(
    rooms: &Vec<Room>,
    es: &Vec<PlacedEntry>,
    batch_size: i64,
    c: &Course,
    day: &String,
    slot: i64,
) -> (b: bool)
    ensures
        b == exists|r: int| 0 <= r < rooms@.len() && domain_room(#[trigger] rooms@[r], batch_size, *c, day@)
            && !room_busy(es@, rooms@[r].id, day@, slot),
{
    let mut k: usize = 0;
    while k < rooms.len()
        invariant
            k <= rooms@.len(),
            forall|j: int| 0 <= j < k ==> !(domain_room(#[trigger] rooms@[j], batch_size, *c, day@)
                && !room_busy(es@, rooms@[j].id, day@, slot)),
        decreases rooms@.len() - k,
    {
        let r = &rooms[k];
        if r.capacity >= batch_size && r.room_type == c.room_type && r.capacity >= c.hours_per_week
            && list_contains(r.available_days.as_str(), day.as_str()) && !room_is_busy(es, r.id, day, slot) {
            assert(domain_room(rooms@[k as int], batch_size, *c, day@));
            return true;
        }
        k = k + 1;
    }
    false
}

/// How many (day, slot) cells are still open to a need (most-constrained
/// first ranks needs by it). The booking state is the list of placed
/// entries; only rooms with at least `batch_size` seats count.
pub fn domain_size(
    batch_id: i64,
    batch_size: i64,
    course: &Course,
    lecturer: &Lecturer,
    days: &Vec<String>,
    es: &Vec<PlacedEntry>,
    rooms: &Vec<Room>,
) -> (n: usize)
    requires
        days@.len() * 8 <= usize::MAX,
    ensures
        n == domain_spec(rooms@, es@, batch_id, batch_size, *course, *lecturer, days.deep_view()),
        n <= days@.len() * 8,
{
    let ghost dv = days.deep_view();
    let ghost rs = rooms@;
    let lid = lecturer.id;
    let wl = count_week_load(es, lid);
    if (wl as i128) >= (lecturer.max_hours_per_week as i128) {
        return 0;
    }
    let mut count: usize = 0;
    let mut d: usize = 0;
    assert(dv.subrange(0, 0) =~= Seq::<Seq<char>>::empty());
    while d < days.len()
        invariant
            dv == days.deep_view(),
            rs == rooms@,
            lid == lecturer.id,
            week_load(es@, lid) < lecturer.max_hours_per_week,
            days@.len() * 8 <= usize::MAX,
            d <= days@.len(),
            count <= d * 8,
            count == domain_days(rs, es@, batch_id, batch_size, *course, *lecturer, dv.subrange(0, d as int)),
        decreases days@.len() - d,
    {
        let day = &days[d];
        assert(day@ == dv[d as int]);
        let avail = list_contains(lecturer.available_days.as_str(), day.as_str());
        let whole = is_blacked_out(&lecturer.blackout_json, day.as_str(), 0)
            && is_blacked_out(&lecturer.blackout_json, day.as_str(), 7);
        let dl = count_day_load(es, lid, day);
        let under = (dl as i128) < (lecturer.max_hours_per_day as i128);
        let occ = collect_day_slots(es, lid, day);
        let ghost before = count;
        let mut s: i64 = 0;
        while s < 8
            invariant
                dv == days.deep_view(),
                rs == rooms@,
                days@.len() * 8 <= usize::MAX,
                d < days@.len(),
                day@ == dv[d as int],
                lid == lecturer.id,
                avail == list_has(lecturer.available_days@, day@),
                whole == (blacked_out_spec(opt_text(lecturer.blackout_json), day@, 0) && blacked_out_spec(
                    opt_text(lecturer.blackout_json),
                    day@,
                    7,
                )),
                under == (day_load(es@, lid, day@) < lecturer.max_hours_per_day),
                occ@ == day_slots(es@, lid, day@),
                0 <= s <= 8,
                before <= d * 8,
                count == before + domain_slots(rs, es@, batch_id, batch_size, *course, *lecturer, day@, s as int),
                count <= before + s,
            decreases 8 - s,
        {
            let open = avail && !whole && under && !is_blacked_out(&lecturer.blackout_json, day.as_str(), s)
                && !lecturer_is_busy(es, lid, day, s) && !batch_is_busy(es, batch_id, day, s)
                && !would_exceed_consecutive(occ.as_slice(), s, lecturer.max_consecutive_hours)
                && some_domain_room(rooms, es, batch_size, course, day, s);
            assert(open == domain_cell(rs, es@, batch_id, batch_size, *course, *lecturer, day@, s));
            if open {
                count = count + 1;
            }
            s = s + 1;
        }
        proof {
            assert(dv.subrange(0, d + 1).drop_last() =~= dv.subrange(0, d as int));
            assert(dv.subrange(0, d + 1).last() == day@);
        }
        d = d + 1;
    }
    assert(dv.subrange(0, d as int) =~= dv);
    count
}

// ── Least-constraining value ────────────────────────────────────────────────

/// What taking `(day, slot)` in room `room_id` for the lecturer and the
/// batch costs another pending need: one if that need is taught by the same
/// lecturer and the lecturer is free there, one if it is for the same batch
/// and the batch is free there, one if the room is free there; nothing for
/// a need whose course or lecturer is unknown.
pub open spec fn lcv_term(
    input: SchedulerInput,
    es: Seq<PlacedEntry>,
    n: Need,
    day: Seq<char>,
    slot: i64,
    room_id: i64,
    lec_id: i64,
    batch_id: i64,
) -> int {
    let cs = input.courses@;
    let ls = input.lecturers@;
    let ci = course_index(cs, n.course_id);
    if ci < 0 {
        0
    } else {
        match cs[ci].lecturer_id {
            None => 0,
            Some(l) => if lecturer_index(ls, l) < 0 {
                0
            } else {
                (if ls[lecturer_index(ls, l)].id == lec_id && !lecturer_busy(es, lec_id, day, slot) {
                    1int
                } else {
                    0int
                }) + (if n.batch_id == batch_id && !batch_busy(es, batch_id, day, slot) {
                    1int
                } else {
                    0int
                }) + (if !room_busy(es, room_id, day, slot) {
                    1int
                } else {
                    0int
                })
            },
        }
    }
}

/// Sum of `lcv_term` over the other pending needs.
pub open spec fn lcv_spec(
    input: SchedulerInput,
    es: Seq<PlacedEntry>,
    remaining: Seq<Need>,
    day: Seq<char>,
    slot: i64,
    room_id: i64,
    lec_id: i64,
    batch_id: i64,
) -> int
    decreases remaining.len(),
{
    if remaining.len() == 0 {
        0
    } else {
        lcv_spec(input, es, remaining.drop_last(), day, slot, room_id, lec_id, batch_id) + lcv_term(
            input,
            es,
            remaining.last(),
            day,
            slot,
            room_id,
            lec_id,
            batch_id,
        )
    }
}

/// How many options placing a class at `(day, slot)` in room `room_id`
/// takes from the other pending needs (lower is better).
pub fn lcv_cost(
    day: &String,
    slot: i64,
    room_id: i64,
    lec_id: i64,
    batch_id: i64,
    remaining: &Vec<Need>,
    input: &SchedulerInput,
    es: &Vec<PlacedEntry>,
) -> (cost: i64)
    requires
        remaining@.len() * 3 <= i64::MAX,
    ensures
        cost == lcv_spec(*input, es@, remaining@, day@, slot, room_id, lec_id, batch_id),
{
    let lec_free = !lecturer_is_busy(es, lec_id, day, slot);
    let batch_free = !batch_is_busy(es, batch_id, day, slot);
    let room_free = !room_is_busy(es, room_id, day, slot);
    let mut cost: i64 = 0;
    let mut k: usize = 0;
    assert(remaining@.subrange(0, 0) =~= Seq::<Need>::empty());
    while k < remaining.len()
        invariant
            remaining@.len() * 3 <= i64::MAX,
            k <= remaining@.len(),
            lec_free == !lecturer_busy(es@, lec_id, day@, slot),
            batch_free == !batch_busy(es@, batch_id, day@, slot),
            room_free == !room_busy(es@, room_id, day@, slot),
            0 <= cost <= 3 * k,
            cost == lcv_spec(*input, es@, remaining@.subrange(0, k as int), day@, slot, room_id, lec_id, batch_id),
        decreases remaining@.len() - k,
    {
        let n = remaining[k];
        proof {
            assert(remaining@.subrange(0, k + 1).drop_last() =~= remaining@.subrange(0, k as int));
            assert(remaining@.subrange(0, k + 1).last() == n);
        }
        match find_course(&input.courses, n.course_id) {
            Some(ci) => {
                match input.courses[ci].lecturer_id {
                    Some(l) => {
                        match find_lecturer(&input.lecturers, l) {
                            Some(li) => {
                                if input.lecturers[li].id == lec_id && lec_free {
                                    cost = cost + 1;
                                }
                                if n.batch_id == batch_id && batch_free {
                                    cost = cost + 1;
                                }
                                if room_free {
                                    cost = cost + 1;
                                }
                            },
                            None => {},
                        }
                    },
                    None => {},
                }
            },
            None => {},
        }
        k = k + 1;
    }
    assert(remaining@.subrange(0, k as int) =~= remaining@);
    cost
}

// ── Candidates of a need ─────────────────────────────────────────────────────

/// A candidate (day, slot, room) of a need with the key it is ranked by:
/// the batch's classes that day, the slot's penalty for the class type plus
/// the lecturer's time-of-day penalty, the day's position among the working
/// days, the slot, and the least-constraining cost.
#[derive(Clone, Copy, Debug)]
pub struct CspChoice {
    pub load: u64,
    pub penalty: i64,
    pub rank: u64,
    pub slot: i64,
    pub lcv: i64,
    /// Index of the day in the working-day list.
    pub day: usize,
    /// Index of the room in the room list.
    pub room: usize,
}

/// `a` ranks no later than `b`: lexicographic order of the keys.
pub open spec fn csp_le(a: CspChoice, b: CspChoice) -> bool {
    ||| a.load < b.load
    ||| a.load == b.load && a.penalty < b.penalty
    ||| a.load == b.load && a.penalty == b.penalty && a.rank < b.rank
    ||| a.load == b.load && a.penalty == b.penalty && a.rank == b.rank && a.slot < b.slot
    ||| a.load == b.load && a.penalty == b.penalty && a.rank == b.rank && a.slot == b.slot && a.lcv <= b.lcv
}

/// A candidate can hold a class of the need whatever else is booked: the
/// day is a working day the lecturer is available on, the slot is one of
/// the eight and not blacked out, and the room fits the course, the batch
/// and the day.
pub open spec fn csp_choice_fits(
    input: SchedulerInput,
    days: Seq<Seq<char>>,
    c: Course,
    l: Lecturer,
    b: Batch,
    x: CspChoice,
) -> bool {
    &&& x.day < days.len()
    &&& is_time_slot(x.slot)
    &&& x.room < input.rooms@.len()
    &&& list_has(l.available_days@, days[x.day as int])
    &&& !blacked_out_spec(opt_text(l.blackout_json), days[x.day as int], x.slot)
    &&& room_fits(input.rooms@[x.room as int], c, b, days[x.day as int])
}

/// The key of a candidate is the one described on `CspChoice`.
pub open spec fn csp_key_ok(
    input: SchedulerInput,
    days: Seq<Seq<char>>,
    es: Seq<PlacedEntry>,
    n: Need,
    c: Course,
    l: Lecturer,
    lid: i64,
    remaining: Seq<Need>,
    x: CspChoice,
) -> bool {
    let day = days[x.day as int];
    &&& x.load == batch_day_count(es, n.batch_id, day)
    &&& x.penalty == slot_penalty_spec(c.class_type@, x.slot) + preferred_penalty_spec(
        opt_text(l.preferred_slots_json),
        day,
        x.slot,
    )
    &&& x.rank < days.len()
    &&& days[x.rank as int] == day
    &&& forall|j: int| 0 <= j < x.rank ==> #[trigger] days[j] != day
    &&& x.lcv == lcv_spec(input, es, remaining, day, x.slot, input.rooms@[x.room as int].id, lid, n.batch_id)
}

/// The working day at index `d` and slot `s` pass every check the candidate
/// list makes for the need: the lecturer is available that day and under
/// both limits, the slot is not blacked out and makes no run longer than the
/// lecturer's limit, lecturer and batch are free, and some room fits and is
/// free.
pub open spec fn csp_cell_open(
    input: SchedulerInput,
    days: Seq<Seq<char>>,
    es: Seq<PlacedEntry>,
    need: Need,
    c: Course,
    l: Lecturer,
    lid: i64,
    b: Batch,
    d: int,
    s: i64,
) -> bool {
    let day = days[d];
    &&& list_has(l.available_days@, day)
    &&& day_load(es, lid, day) < l.max_hours_per_day
    &&& week_load(es, lid) < l.max_hours_per_week
    &&& !blacked_out_spec(opt_text(l.blackout_json), day, s)
    &&& !exceeds_run(sort_slots(day_slots(es, lid, day).push(s)), l.max_consecutive_hours)
    &&& !lecturer_busy(es, lid, day, s)
    &&& !batch_busy(es, need.batch_id, day, s)
    &&& exists|r: int| 0 <= r < input.rooms@.len() && room_fits(#[trigger] input.rooms@[r], c, b, day)
        && !room_busy(es, input.rooms@[r].id, day, s)
}

/// Room `r` is the first room of the list that fits and is free at
/// (`day`, `s`).
pub open spec fn first_free_room(
    rooms: Seq<Room>,
    es: Seq<PlacedEntry>,
    c: Course,
    b: Batch,
    day: Seq<char>,
    s: i64,
    r: int,
) -> bool {
    &&& 0 <= r < rooms.len()
    &&& room_fits(rooms[r], c, b, day)
    &&& !room_busy(es, rooms[r].id, day, s)
    &&& forall|j: int| 0 <= j < r ==> !(room_fits(#[trigger] rooms[j], c, b, day) && !room_busy(es, rooms[j].id, day, s))
}

/// Some candidate of the list is day `d` at slot `s`.
pub open spec fn csp_has_cell(v: Seq<CspChoice>, d: int, s: i64) -> bool {
    exists|i: int| 0 <= i < v.len() && #[trigger] v[i].day == d && v[i].slot == s
}

/// Inserting a candidate keeps every (day, slot) the list had and adds its
/// own.
proof fn lemma_insert_keeps_cells(before: Seq<CspChoice>, p: int, x: CspChoice, v: Seq<CspChoice>)
    requires
        0 <= p <= before.len(),
        v == before.subrange(0, p) + seq![x] + before.subrange(p, before.len() as int),
    ensures
        forall|d: int, s: i64| #[trigger] csp_has_cell(before, d, s) ==> csp_has_cell(v, d, s),
        csp_has_cell(v, x.day as int, x.slot),
{
    assert forall|d: int, s: i64| #[trigger] csp_has_cell(before, d, s) implies csp_has_cell(v, d, s) by {
        let i = choose|i: int| 0 <= i < before.len() && #[trigger] before[i].day == d && before[i].slot == s;
        if i < p {
            assert(v[i] == before[i]);
        } else {
            assert(v[i + 1] == before[i]);
        }
    }
    assert(v[p] == x);
}

/// The candidates of a need, ranked: for each working day the lecturer is
/// available on and below both limits, each slot that is not blacked out,
/// keeps within the run limit and finds the lecturer and the batch free,
/// with the first free room that fits. Every such (day, slot) is in the
/// list, once.
#[verifier::rlimit(100)]
fn csp_candidates(
    input: &SchedulerInput,
    days: &Vec<String>,
    need: Need,
    course: &Course,
    lec: &Lecturer,
    lid: i64,
    batch: &Batch,
    es: &Vec<PlacedEntry>,
    remaining: &Vec<Need>,
) -> (v: Vec<CspChoice>)
    requires
        remaining@.len() * 3 <= i64::MAX,
    ensures
        forall|i: int| 0 <= i < v@.len() ==> csp_choice_fits(*input, days.deep_view(), *course, *lec, *batch, #[trigger] v@[i]),
        forall|i: int| 0 <= i < v@.len() ==> csp_key_ok(
            *input,
            days.deep_view(),
            es@,
            need,
            *course,
            *lec,
            lid,
            remaining@,
            #[trigger] v@[i],
        ),
        forall|i: int, j: int| 0 <= i <= j < v@.len() ==> csp_le(#[trigger] v@[i], #[trigger] v@[j]),
        forall|i: int| 0 <= i < v@.len() ==> csp_cell_open(
            *input,
            days.deep_view(),
            es@,
            need,
            *course,
            *lec,
            lid,
            *batch,
            #[trigger] v@[i].day as int,
            v@[i].slot,
        ) && first_free_room(input.rooms@, es@, *course, *batch, days.deep_view()[v@[i].day as int], v@[i].slot, v@[i].room as int),
        forall|d: int, s: i64| 0 <= d < days@.len() && 0 <= s < 8 && #[trigger] csp_cell_open(
            *input,
            days.deep_view(),
            es@,
            need,
            *course,
            *lec,
            lid,
            *batch,
            d,
            s,
        ) ==> csp_has_cell(v@, d, s),
        forall|i: int, j: int| 0 <= i < j < v@.len() ==> !(#[trigger] v@[i].day == #[trigger] v@[j].day && v@[i].slot == v@[j].slot),
        csp_cands_ok(*input, days.deep_view(), es@, need, *course, *lec, lid, *batch, remaining@, v@),
{
    let ghost dv = days.deep_view();
    let mut v: Vec<CspChoice> = Vec::new();
    let mut d: usize = 0;
    while d < days.len()
        invariant
            dv == days.deep_view(),
            remaining@.len() * 3 <= i64::MAX,
            d <= days@.len(),
            forall|i: int| 0 <= i < v@.len() ==> csp_choice_fits(*input, dv, *course, *lec, *batch, #[trigger] v@[i]),
            forall|i: int| 0 <= i < v@.len() ==> csp_key_ok(*input, dv, es@, need, *course, *lec, lid, remaining@, #[trigger] v@[i]),
            forall|i: int, j: int| 0 <= i <= j < v@.len() ==> csp_le(#[trigger] v@[i], #[trigger] v@[j]),
            forall|i: int| 0 <= i < v@.len() ==> csp_cell_open(*input, dv, es@, need, *course, *lec, lid, *batch, #[trigger] v@[i].day as int, v@[i].slot)
                && first_free_room(input.rooms@, es@, *course, *batch, dv[v@[i].day as int], v@[i].slot, v@[i].room as int)
                && v@[i].day < d,
            forall|dd: int, ss: i64| 0 <= dd < d && 0 <= ss < 8 && #[trigger] csp_cell_open(*input, dv, es@, need, *course, *lec, lid, *batch, dd, ss)
                ==> csp_has_cell(v@, dd, ss),
            forall|i: int, j: int| 0 <= i < j < v@.len() ==> !(#[trigger] v@[i].day == #[trigger] v@[j].day && v@[i].slot == v@[j].slot),
        decreases days@.len() - d,
    {
        let day = &days[d];
        assert(day@ == dv[d as int]);
        let avail = list_contains(lec.available_days.as_str(), day.as_str());
        let dl = count_day_load(es, lid, day);
        let wl = count_week_load(es, lid);
        if avail && (dl as i128) < (lec.max_hours_per_day as i128) && (wl as i128) < (lec.max_hours_per_week as i128) {
            let occ = collect_day_slots(es, lid, day);
            let rank = first_day_pos(days, d) as u64;
            let load = count_batch_day(es, need.batch_id, day) as u64;
            let mut s: i64 = 0;
            while s < 8
                invariant
                    dv == days.deep_view(),
                    remaining@.len() * 3 <= i64::MAX,
                    d < days@.len(),
                    day@ == dv[d as int],
                    list_has(lec.available_days@, day@),
                    load == batch_day_count(es@, need.batch_id, dv[d as int]),
                    rank < days@.len(),
                    dv[rank as int] == dv[d as int],
                    forall|j: int| 0 <= j < rank ==> #[trigger] dv[j] != dv[d as int],
                    0 <= s <= 8,
                    forall|i: int| 0 <= i < v@.len() ==> csp_choice_fits(*input, dv, *course, *lec, *batch, #[trigger] v@[i]),
                    forall|i: int| 0 <= i < v@.len() ==> csp_key_ok(*input, dv, es@, need, *course, *lec, lid, remaining@, #[trigger] v@[i]),
                    forall|i: int, j: int| 0 <= i <= j < v@.len() ==> csp_le(#[trigger] v@[i], #[trigger] v@[j]),
                    day_load(es@, lid, day@) < lec.max_hours_per_day,
                    week_load(es@, lid) < lec.max_hours_per_week,
                    occ@ == day_slots(es@, lid, day@),
                    forall|i: int| 0 <= i < v@.len() ==> csp_cell_open(*input, dv, es@, need, *course, *lec, lid, *batch, #[trigger] v@[i].day as int, v@[i].slot)
                        && first_free_room(input.rooms@, es@, *course, *batch, dv[v@[i].day as int], v@[i].slot, v@[i].room as int)
                        && (v@[i].day < d || (v@[i].day == d && v@[i].slot < s)),
                    forall|dd: int, ss: i64| 0 <= dd < d && 0 <= ss < 8 && #[trigger] csp_cell_open(*input, dv, es@, need, *course, *lec, lid, *batch, dd, ss)
                        ==> csp_has_cell(v@, dd, ss),
                    forall|ss: i64| 0 <= ss < s && #[trigger] csp_cell_open(*input, dv, es@, need, *course, *lec, lid, *batch, d as int, ss)
                        ==> csp_has_cell(v@, d as int, ss),
                    forall|i: int, j: int| 0 <= i < j < v@.len() ==> !(#[trigger] v@[i].day == #[trigger] v@[j].day && v@[i].slot == v@[j].slot),
                decreases 8 - s,
            {
                if !is_blacked_out(&lec.blackout_json, day.as_str(), s)
                    && !would_exceed_consecutive(occ.as_slice(), s, lec.max_consecutive_hours)
                    && !lecturer_is_busy(es, lid, day, s) && !batch_is_busy(es, need.batch_id, day, s) {
                    match find_room(&input.rooms, course, batch, day, s, es) {
                        Some(ri) => {
                            let pen = slot_penalty(course.class_type.as_str(), s) + preferred_penalty(
                                &lec.preferred_slots_json,
                                day.as_str(),
                                s,
                            );
                            let lcv = lcv_cost(day, s, input.rooms[ri].id, lid, need.batch_id, remaining, input, es);
                            let x = CspChoice { load, penalty: pen, rank, slot: s, lcv, day: d, room: ri };
                            assert(csp_choice_fits(*input, dv, *course, *lec, *batch, x));
                            assert(csp_key_ok(*input, dv, es@, need, *course, *lec, lid, remaining@, x));
                            let mut p: usize = 0;
                            while p < v.len() && (v[p].load < x.load || (v[p].load == x.load && (v[p].penalty < x.penalty
                                || (v[p].penalty == x.penalty && (v[p].rank < x.rank || (v[p].rank == x.rank && (v[p].slot < x.slot
                                || (v[p].slot == x.slot && v[p].lcv <= x.lcv))))))))
                                invariant
                                    p <= v@.len(),
                                    forall|j: int| 0 <= j < p ==> csp_le(#[trigger] v@[j], x),
                                decreases v@.len() - p,
                            {
                                p = p + 1;
                            }
                            let ghost before = v@;
                            v.insert(p, x);
                            proof {
                                assert(v@ =~= before.subrange(0, p as int) + seq![x] + before.subrange(p as int, before.len() as int));
                                assert forall|i: int| 0 <= i < v@.len() implies
                                    csp_choice_fits(*input, dv, *course, *lec, *batch, #[trigger] v@[i])
                                    && csp_key_ok(*input, dv, es@, need, *course, *lec, lid, remaining@, v@[i]) by {
                                    if i < p {
                                        assert(v@[i] == before[i]);
                                    } else if i > p {
                                        assert(v@[i] == before[i - 1]);
                                    }
                                }
                                assert forall|i: int, j: int| 0 <= i <= j < v@.len() implies csp_le(#[trigger] v@[i], #[trigger] v@[j]) by {
                                    if p < before.len() {
                                        assert(!csp_le(before[p as int], x));
                                    }
                                    if i < p && j < p {
                                        assert(v@[i] == before[i] && v@[j] == before[j]);
                                    } else if i < p && j == p {
                                        assert(v@[i] == before[i]);
                                    } else if i < p && j > p {
                                        assert(v@[i] == before[i] && v@[j] == before[j - 1]);
                                    } else if i == p && j > p {
                                        assert(v@[j] == before[j - 1]);
                                        assert(csp_le(before[p as int], before[j - 1]));
                                    } else if i > p {
                                        assert(v@[i] == before[i - 1] && v@[j] == before[j - 1]);
                                    }
                                }
                                assert(csp_cell_open(*input, dv, es@, need, *course, *lec, lid, *batch, d as int, s));
                                assert(first_free_room(input.rooms@, es@, *course, *batch, dv[d as int], s, ri as int));
                                lemma_insert_keeps_cells(before, p as int, x, v@);
                                assert forall|i: int| 0 <= i < v@.len() implies csp_cell_open(*input, dv, es@, need, *course, *lec, lid, *batch, #[trigger] v@[i].day as int, v@[i].slot)
                                    && first_free_room(input.rooms@, es@, *course, *batch, dv[v@[i].day as int], v@[i].slot, v@[i].room as int)
                                    && (v@[i].day < d || (v@[i].day == d && v@[i].slot < s + 1)) by {
                                    if i < p {
                                        assert(v@[i] == before[i]);
                                    } else if i > p {
                                        assert(v@[i] == before[i - 1]);
                                    } else {
                                        assert(v@[i] == x);
                                    }
                                }
                                assert forall|i: int, j: int| 0 <= i < j < v@.len() implies !(#[trigger] v@[i].day == #[trigger] v@[j].day && v@[i].slot == v@[j].slot) by {
                                    if i < p && j < p {
                                        assert(v@[i] == before[i] && v@[j] == before[j]);
                                    } else if i < p && j == p {
                                        assert(v@[i] == before[i]);
                                    } else if i < p && j > p {
                                        assert(v@[i] == before[i] && v@[j] == before[j - 1]);
                                    } else if i == p && j > p {
                                        assert(v@[j] == before[j - 1]);
                                    } else if i > p {
                                        assert(v@[i] == before[i - 1] && v@[j] == before[j - 1]);
                                    }
                                }
                            }
                        },
                        None => {
                            assert(!csp_cell_open(*input, dv, es@, need, *course, *lec, lid, *batch, d as int, s));
                        },
                    }
                } else {
                    assert(!csp_cell_open(*input, dv, es@, need, *course, *lec, lid, *batch, d as int, s));
                }
                s = s + 1;
            }
        } else {
            assert forall|ss: i64| 0 <= ss < 8 implies !#[trigger] csp_cell_open(*input, dv, es@, need, *course, *lec, lid, *batch, d as int, ss) by {
            }
        }
        d = d + 1;
    }
    assert(csp_cands_ok(*input, dv, es@, need, *course, *lec, lid, *batch, remaining@, v@));
    v
}

// ── Placing a need's sessions ────────────────────────────────────────────────

/// A candidate can take a class of the need given the classes `es`: the
/// lecturer is under the weekly and the daily limit, the lecturer, the batch
/// and the candidate's room are free, and the slot makes no run longer than
/// the lecturer's limit.
pub open spec fn csp_try_ok(
    input: SchedulerInput,
    days: Seq<Seq<char>>,
    es: Seq<PlacedEntry>,
    need: Need,
    l: Lecturer,
    lid: i64,
    x: CspChoice,
) -> bool {
    let day = days[x.day as int];
    &&& week_load(es, lid) < l.max_hours_per_week
    &&& day_load(es, lid, day) < l.max_hours_per_day
    &&& !lecturer_busy(es, lid, day, x.slot)
    &&& !batch_busy(es, need.batch_id, day, x.slot)
    &&& !room_busy(es, input.rooms@[x.room as int].id, day, x.slot)
    &&& !exceeds_run(sort_slots(day_slots(es, lid, day).push(x.slot)), l.max_consecutive_hours)
}

/// `e` is the class a candidate gives the need.
pub open spec fn csp_entry_of(
    input: SchedulerInput,
    days: Seq<Seq<char>>,
    need: Need,
    c: Course,
    lid: i64,
    x: CspChoice,
    e: PlacedEntry,
) -> bool {
    &&& e.course_id == need.course_id
    &&& e.lecturer_id == lid
    &&& e.room_id == input.rooms@[x.room as int].id
    &&& e.batch_id == need.batch_id
    &&& e.day@ == days[x.day as int]
    &&& e.time_slot == x.slot
    &&& e.class_type@ == c.class_type@
    &&& e.week_parity == (if need.biweekly { 1i64 } else { 0i64 })
}

/// The classes of `es` after `before` and its first `k` new ones.
pub open spec fn csp_state(before: Seq<PlacedEntry>, es: Seq<PlacedEntry>, k: int) -> Seq<PlacedEntry> {
    es.subrange(0, before.len() + k)
}

/// `es` is `before` with the candidates taken in order up to `stop`: the
/// candidates at `used` (ascending) each gave one class, each when it could
/// take one, and every other candidate before `stop` could not take one
/// when its turn came. The need gets at most its sessions (none when it owes
/// none), and once it has them the filling stops right after the candidate
/// that gave the last one.
pub open spec fn csp_fill(
    input: SchedulerInput,
    days: Seq<Seq<char>>,
    need: Need,
    c: Course,
    l: Lecturer,
    lid: i64,
    cands: Seq<CspChoice>,
    before: Seq<PlacedEntry>,
    es: Seq<PlacedEntry>,
    used: Seq<int>,
    stop: int,
) -> bool {
    &&& 0 <= stop <= cands.len()
    &&& need.hours > 0 ==> used.len() <= need.hours
    &&& need.hours <= 0 ==> used.len() == 0
    &&& used.len() >= need.hours ==> stop == (if used.len() == 0 { 0int } else { used.last() + 1 })
    &&& es.len() == before.len() + used.len()
    &&& es.subrange(0, before.len() as int) == before
    &&& forall|k: int| 0 <= k < used.len() ==> 0 <= #[trigger] used[k] < stop
    &&& forall|k1: int, k2: int| 0 <= k1 < k2 < used.len() ==> #[trigger] used[k1] < #[trigger] used[k2]
    &&& forall|k: int| 0 <= k < used.len() ==> csp_entry_of(input, days, need, c, lid, cands[#[trigger] used[k]], es[before.len() + k])
        && csp_try_ok(input, days, csp_state(before, es, k), need, l, lid, cands[used[k]])
    &&& forall|j: int, k: int|
        #![trigger csp_try_ok(input, days, csp_state(before, es, k), need, l, lid, cands[j])]
        0 <= j < stop && 0 <= k <= used.len() && (k == 0 || used[k - 1] < j) && (k == used.len() || j < used[k])
            ==> !csp_try_ok(input, days, csp_state(before, es, k), need, l, lid, cands[j])
}

/// Places sessions of a need into its ranked candidates while it still owes
/// sessions and the lecturer is under the weekly limit, re-checking each
/// candidate against what is booked by then: a candidate takes a class
/// exactly when it passes those checks at its turn. Returns how many were
/// placed.
fn csp_place(
    input: &SchedulerInput,
    days: &Vec<String>,
    need: Need,
    ci: usize,
    li: usize,
    bi: usize,
    lid: i64,
    cands: &Vec<CspChoice>,
    entries: &mut Vec<PlacedEntry>,
) -> (placed: i64)
    requires
        days.deep_view() == effective_days(input.working_days.deep_view()),
        need_ok(*input, need),
        ci < input.courses@.len(),
        ci as int == course_index(input.courses@, need.course_id),
        bi < input.batches@.len(),
        bi as int == batch_index(input.batches@, need.batch_id),
        input.courses@[ci as int].lecturer_id == Some(lid),
        li < input.lecturers@.len(),
        li as int == lecturer_index(input.lecturers@, lid),
        input.lecturers@[li as int].id == lid,
        forall|i: int| 0 <= i < cands@.len() ==> csp_choice_fits(
            *input,
            days.deep_view(),
            input.courses@[ci as int],
            input.lecturers@[li as int],
            input.batches@[bi as int],
            #[trigger] cands@[i],
        ),
        respects_constraints(*input, days.deep_view(), old(entries)@),
    ensures
        respects_constraints(*input, days.deep_view(), final(entries)@),
        0 <= placed,
        need.hours > 0 ==> placed <= need.hours,
        need.hours <= 0 ==> placed == 0,
        exists|used: Seq<int>, stop: int|
            csp_fill(
                *input,
                days.deep_view(),
                need,
                input.courses@[ci as int],
                input.lecturers@[li as int],
                lid,
                cands@,
                old(entries)@,
                final(entries)@,
                used,
                stop,
            ) && used.len() == placed && (stop == cands@.len() || placed >= need.hours || week_load(final(entries)@, lid)
                >= input.lecturers@[li as int].max_hours_per_week),
        forall|k: int| old(entries)@.len() <= k < final(entries)@.len() ==> #[trigger] final(entries)@[k].batch_id == need.batch_id
            && final(entries)@[k].course_id == need.course_id,
        final(entries)@.len() == old(entries)@.len() + placed,
        final(entries)@.subrange(0, old(entries)@.len() as int) == old(entries)@,
{
    let ghost dv = days.deep_view();
    let course = &input.courses[ci];
    let lec = &input.lecturers[li];
    let batch = &input.batches[bi];
    let ghost e0 = entries@;
    let ghost cs = cands@;
    let ghost mut used: Seq<int> = Seq::empty();
    let mut placed: i64 = 0;
    let mut i: usize = 0;
    assert(entries@.subrange(0, e0.len() as int) =~= e0);
    while i < cands.len()
        invariant
            dv == days.deep_view(),
            dv == effective_days(input.working_days.deep_view()),
            cs == cands@,
            need_ok(*input, need),
            ci < input.courses@.len(),
            ci as int == course_index(input.courses@, need.course_id),
            *course == input.courses@[ci as int],
            bi < input.batches@.len(),
            bi as int == batch_index(input.batches@, need.batch_id),
            *batch == input.batches@[bi as int],
            course.lecturer_id == Some(lid),
            li < input.lecturers@.len(),
            li as int == lecturer_index(input.lecturers@, lid),
            *lec == input.lecturers@[li as int],
            lec.id == lid,
            forall|k: int| 0 <= k < cands@.len() ==> csp_choice_fits(*input, dv, *course, *lec, *batch, #[trigger] cands@[k]),
            i <= cands@.len(),
            respects_constraints(*input, dv, entries@),
            0 <= placed <= i,
            need.hours > 0 ==> placed <= need.hours,
            need.hours <= 0 ==> placed == 0,
            e0 == old(entries)@,
            placed == used.len(),
            csp_fill(*input, dv, need, *course, *lec, lid, cs, e0, entries@, used, i as int),
            forall|k: int| e0.len() <= k < entries@.len() ==> #[trigger] entries@[k].batch_id == need.batch_id
                && entries@[k].course_id == need.course_id,
        ensures
            i == cands@.len() || placed >= need.hours || week_load(entries@, lid) >= lec.max_hours_per_week,
        decreases cands@.len() - i,
    {
        if placed >= need.hours {
            break;
        }
        let c = cands[i];
        assert(csp_choice_fits(*input, dv, *course, *lec, *batch, cands@[i as int]));
        let ghost j = i as int;
        let ghost cur = entries@;
        proof {
            assert(csp_state(e0, cur, used.len() as int) =~= cur);
        }
        i = i + 1;
        let day = &days[c.day];
        let slot = c.slot;
        assert(day@ == dv[c.day as int]);
        let wl = count_week_load(entries, lid);
        let dl = count_day_load(entries, lid, day);
        let room_id = input.rooms[c.room].id;
        let mut ok = (wl as i128) < (lec.max_hours_per_week as i128);
        if ok {
            ok = (dl as i128) < (lec.max_hours_per_day as i128) && !lecturer_is_busy(entries, lid, day, slot)
                && !batch_is_busy(entries, need.batch_id, day, slot) && !room_is_busy(entries, room_id, day, slot);
            if ok {
                let occ = collect_day_slots(entries, lid, day);
                ok = !would_exceed_consecutive(occ.as_slice(), slot, lec.max_consecutive_hours);
            }
        }
        assert(ok == csp_try_ok(*input, dv, cur, need, *lec, lid, c));
        if !ok {
            proof {
                assert forall|jj: int, k: int|
                    #![trigger csp_try_ok(*input, dv, csp_state(e0, entries@, k), need, *lec, lid, cs[jj])]
                    0 <= jj < i && 0 <= k <= used.len() && (k == 0 || used[k - 1] < jj) && (k == used.len() || jj < used[k])
                    implies !csp_try_ok(*input, dv, csp_state(e0, entries@, k), need, *lec, lid, cs[jj]) by {
                    if jj == j {
                        if k < used.len() {
                            assert(used[k] < j);
                        }
                        assert(k == used.len());
                    }
                }
            }
            if (wl as i128) >= (lec.max_hours_per_week as i128) {
                break;
            }
            continue;
        }
        let e = PlacedEntry {
            course_id: need.course_id,
            lecturer_id: lid,
            room_id,
            batch_id: need.batch_id,
            day: day.clone(),
            time_slot: slot,
            class_type: course.class_type.clone(),
            week_parity: if need.biweekly { 1 } else { 0 },
        };
        proof {
            assert(dv[c.day as int] == e.day@);
            assert(dv.contains(e.day@));
            assert(input.rooms@[c.room as int].id == e.room_id);
            lemma_place_entry(*input, dv, entries@, e);
        }
        entries.push(e);
        proof {
            let old_used = used;
            used = used.push(j);
            let es = entries@;
            assert(es.subrange(0, e0.len() as int) =~= cur.subrange(0, e0.len() as int));
            assert forall|k: int| 0 <= k <= old_used.len() implies #[trigger] csp_state(e0, es, k) == csp_state(e0, cur, k) by {
                assert(csp_state(e0, es, k) =~= csp_state(e0, cur, k));
            }
            assert(es[(e0.len() + old_used.len()) as int] == e);
            assert forall|k: int| 0 <= k < used.len() implies 0 <= #[trigger] used[k] < i by {
                if k < old_used.len() {
                    assert(used[k] == old_used[k]);
                }
            }
            assert forall|k1: int, k2: int| 0 <= k1 < k2 < used.len() implies #[trigger] used[k1] < #[trigger] used[k2] by {
                if k2 < old_used.len() {
                    assert(used[k1] == old_used[k1] && used[k2] == old_used[k2]);
                } else {
                    assert(used[k1] == old_used[k1]);
                }
            }
            assert forall|k: int| 0 <= k < used.len() implies csp_entry_of(*input, dv, need, *course, lid, cs[#[trigger] used[k]], es[e0.len() + k])
                && csp_try_ok(*input, dv, csp_state(e0, es, k), need, *lec, lid, cs[used[k]]) by {
                if k < old_used.len() {
                    assert(used[k] == old_used[k]);
                    assert(es[e0.len() + k] == cur[e0.len() + k]);
                } else {
                    assert(used[k] == j);
                }
            }
            assert forall|jj: int, k: int|
                #![trigger csp_try_ok(*input, dv, csp_state(e0, es, k), need, *lec, lid, cs[jj])]
                0 <= jj < i && 0 <= k <= used.len() && (k == 0 || used[k - 1] < jj) && (k == used.len() || jj < used[k])
                implies !csp_try_ok(*input, dv, csp_state(e0, es, k), need, *lec, lid, cs[jj]) by {
                if k == used.len() {
                    assert(used[k - 1] == j);
                } else {
                    if k > 0 {
                        assert(used[k - 1] == old_used[k - 1]);
                    }
                    if k < old_used.len() {
                        assert(used[k] == old_used[k]);
                    } else {
                        assert(used[k] == j);
                    }
                    assert(jj < j);
                }
            }
            assert forall|k: int| e0.len() <= k < es.len() implies #[trigger] es[k].batch_id == need.batch_id
                && es[k].course_id == need.course_id by {
                if k < cur.len() {
                    assert(es[k] == cur[k]);
                }
            }
        }
        placed = placed + 1;
    }
    placed
}

// ── Choosing the next need ───────────────────────────────────────────────────

/// The need's course has no lecturer, or one missing from the list.
pub open spec fn lacks_lecturer(input: SchedulerInput, n: Need) -> bool {
    let cs = input.courses@;
    let ci = course_index(cs, n.course_id);
    ci >= 0 && match cs[ci].lecturer_id {
        None => true,
        Some(l) => lecturer_index(input.lecturers@, l) < 0,
    }
}

/// The domain size of a need whose course, lecturer and batch are known.
pub open spec fn need_domain(input: SchedulerInput, days: Seq<Seq<char>>, es: Seq<PlacedEntry>, n: Need) -> Option<nat> {
    let cs = input.courses@;
    let ls = input.lecturers@;
    let bs = input.batches@;
    let ci = course_index(cs, n.course_id);
    if ci < 0 {
        None
    } else {
        match cs[ci].lecturer_id {
            None => None,
            Some(l) => if lecturer_index(ls, l) < 0 || batch_index(bs, n.batch_id) < 0 {
                None
            } else {
                Some(
                    domain_spec(
                        input.rooms@,
                        es,
                        n.batch_id,
                        bs[batch_index(bs, n.batch_id)].size,
                        cs[ci],
                        ls[lecturer_index(ls, l)],
                        days,
                    ),
                )
            },
        }
    }
}

/// Picks the pending need to place next: the first one whose course lacks a
/// lecturer, if any; else the first with the smallest domain.
pub fn pick_need(
    input: &SchedulerInput,
    needs: &Vec<Need>,
    pending: &Vec<usize>,
    days: &Vec<String>,
    es: &Vec<PlacedEntry>,
) -> (r: usize)
    requires
        pending@.len() > 0,
        forall|i: int| 0 <= i < pending@.len() ==> #[trigger] pending@[i] < needs@.len(),
        days@.len() * 8 <= usize::MAX,
    ensures
        r < pending@.len(),
        (exists|p: int| 0 <= p < pending@.len() && lacks_lecturer(*input, #[trigger] needs@[pending@[p] as int]))
            ==> lacks_lecturer(*input, needs@[pending@[r as int] as int]) && forall|p: int|
            0 <= p < r ==> !lacks_lecturer(*input, #[trigger] needs@[pending@[p] as int]),
        !(exists|p: int| 0 <= p < pending@.len() && lacks_lecturer(*input, #[trigger] needs@[pending@[p] as int]))
            ==> forall|p: int| 0 <= p < pending@.len() && (#[trigger] need_domain(*input, days.deep_view(), es@, needs@[pending@[p] as int])) is Some
            ==> need_domain(*input, days.deep_view(), es@, needs@[pending@[r as int] as int]) is Some
                && need_domain(*input, days.deep_view(), es@, needs@[pending@[r as int] as int])->0
                <= need_domain(*input, days.deep_view(), es@, needs@[pending@[p] as int])->0
                && (p < r ==> need_domain(*input, days.deep_view(), es@, needs@[pending@[r as int] as int])->0
                < need_domain(*input, days.deep_view(), es@, needs@[pending@[p] as int])->0),
{
    let ghost dv = days.deep_view();
    let mut best_pos: usize = 0;
    let mut best: usize = usize::MAX;
    let mut pos: usize = 0;
    while pos < pending.len()
        invariant
            dv == days.deep_view(),
            pending@.len() > 0,
            forall|i: int| 0 <= i < pending@.len() ==> #[trigger] pending@[i] < needs@.len(),
            days@.len() * 8 <= usize::MAX,
            pos <= pending@.len(),
            best_pos < pending@.len(),
            best_pos <= pos,
            forall|p: int| 0 <= p < pos ==> !lacks_lecturer(*input, #[trigger] needs@[pending@[p] as int]),
            best < usize::MAX ==> need_domain(*input, dv, es@, needs@[pending@[best_pos as int] as int]) == Some(best as nat),
            best == usize::MAX ==> forall|p: int| 0 <= p < pos ==> (#[trigger] need_domain(*input, dv, es@, needs@[pending@[p] as int])) is None,
            forall|p: int| 0 <= p < pos && (#[trigger] need_domain(*input, dv, es@, needs@[pending@[p] as int])) is Some
                ==> best <= need_domain(*input, dv, es@, needs@[pending@[p] as int])->0
                && (p < best_pos ==> best < need_domain(*input, dv, es@, needs@[pending@[p] as int])->0),
        decreases pending@.len() - pos,
    {
        let n = needs[pending[pos]];
        assert(n == needs@[pending@[pos as int] as int]);
        match find_course(&input.courses, n.course_id) {
            None => {
                assert(need_domain(*input, dv, es@, n) is None);
            },
            Some(ci) => {
                let course = &input.courses[ci];
                match course.lecturer_id {
                    None => {
                        return pos;
                    },
                    Some(l) => {
                        match find_lecturer(&input.lecturers, l) {
                            None => {
                                return pos;
                            },
                            Some(li) => {
                                match find_batch(&input.batches, n.batch_id) {
                                    None => {
                                        assert(need_domain(*input, dv, es@, n) is None);
                                    },
                                    Some(bi) => {
                                        let ds = domain_size(
                                            n.batch_id,
                                            input.batches[bi].size,
                                            course,
                                            &input.lecturers[li],
                                            days,
                                            es,
                                            &input.rooms,
                                        );
                                        assert(need_domain(*input, dv, es@, n) == Some(ds as nat));
                                        if ds < best {
                                            best = ds;
                                            best_pos = pos;
                                        }
                                    },
                                }
                            },
                        }
                    },
                }
            },
        }
        pos = pos + 1;
    }
    best_pos
}

// ── Backjumping ──────────────────────────────────────────────────────────────

/// An entry is taught by the lecturer or given to the batch.
pub open spec fn conflicts(e: PlacedEntry, lid: i64, batch_id: i64) -> bool {
    e.lecturer_id == lid || e.batch_id == batch_id
}

/// Position of the last entry taught by the lecturer or given to the batch.
pub fn last_conflict(es: &Vec<PlacedEntry>, lid: i64, batch_id: i64) -> (r: Option<usize>)
    ensures
        match r {
            Some(p) => p < es@.len() && conflicts(es@[p as int], lid, batch_id)
                && forall|j: int| p < j < es@.len() ==> !conflicts(#[trigger] es@[j], lid, batch_id),
            None => forall|j: int| 0 <= j < es@.len() ==> !conflicts(#[trigger] es@[j], lid, batch_id),
        },
{
    let mut k: usize = es.len();
    while k > 0
        invariant
            k <= es@.len(),
            forall|j: int| k <= j < es@.len() ==> !conflicts(#[trigger] es@[j], lid, batch_id),
        decreases k,
    {
        if es[k - 1].lecturer_id == lid || es[k - 1].batch_id == batch_id {
            return Some(k - 1);
        }
        k = k - 1;
    }
    None
}

/// Position of the first need for the batch and the course.
pub fn first_need_pos(needs: &Vec<Need>, batch_id: i64, course_id: i64) -> (r: Option<usize>)
    ensures
        match r {
            Some(k) => k < needs@.len() && needs@[k as int].batch_id == batch_id && needs@[k as int].course_id == course_id
                && forall|j: int| 0 <= j < k ==> !(#[trigger] needs@[j].batch_id == batch_id && needs@[j].course_id == course_id),
            None => forall|j: int| 0 <= j < needs@.len() ==> !(#[trigger] needs@[j].batch_id == batch_id && needs@[j].course_id == course_id),
        },
{
    let mut k: usize = 0;
    while k < needs.len()
        invariant
            k <= needs@.len(),
            forall|j: int| 0 <= j < k ==> !(#[trigger] needs@[j].batch_id == batch_id && needs@[j].course_id == course_id),
        decreases needs@.len() - k,
    {
        if needs[k].batch_id == batch_id && needs[k].course_id == course_id {
            return Some(k);
        }
        k = k + 1;
    }
    None
}

/// Whether the pending list holds the need index.
fn pending_has(pending: &Vec<usize>, x: usize) -> (b: bool)
    ensures
        b == pending@.contains(x),
{
    let mut k: usize = 0;
    while k < pending.len()
        invariant
            k <= pending@.len(),
            forall|j: int| 0 <= j < k ==> pending@[j] != x,
        decreases pending@.len() - k,
    {
        if pending[k] == x {
            return true;
        }
        k = k + 1;
    }
    false
}

// ── The scheduler ──────────────────────────────────────────────────────────

/// Some need of the list is reported by the item.
pub open spec fn explained(input: SchedulerInput, needs: Seq<Need>, u: UnscheduledItem) -> bool {
    exists|k: int| 0 <= k < needs.len() && item_explains(input, needs[k], u)
}

/// Classes the batch has in the course.
pub open spec fn classes_of(es: Seq<PlacedEntry>, batch_id: i64, course_id: i64) -> nat
    decreases es.len(),
{
    if es.len() == 0 {
        0
    } else {
        classes_of(es.drop_last(), batch_id, course_id) + (if es.last().batch_id == batch_id
            && es.last().course_id == course_id { 1nat } else { 0nat })
    }
}

/// Need `j` is the first need of its batch and course.
pub open spec fn first_of_pair(needs: Seq<Need>, j: int) -> bool {
    forall|k: int| 0 <= k < j ==> !(#[trigger] needs[k].batch_id == needs[j].batch_id && needs[k].course_id == needs[j].course_id)
}

/// Need `j` ends covered: the batch has all the need's sessions of the
/// course, or a report about the need covers what is missing.
pub open spec fn need_covered(
    es: Seq<PlacedEntry>,
    items: Seq<UnscheduledItem>,
    owner: Seq<int>,
    needs: Seq<Need>,
    j: int,
) -> bool {
    let n = needs[j];
    ||| classes_of(es, n.batch_id, n.course_id) >= n.hours
    ||| exists|u: int| 0 <= u < items.len() && owner[u] == j && classes_of(es, n.batch_id, n.course_id)
        + #[trigger] items[u].hours_needed >= n.hours
}

/// The reports of the CSP scheduler: report `u` is about need `owner[u]`
/// and explains it, and the first need of every batch and course is
/// covered by the timetable or by a report about it.
pub open spec fn csp_reports_cover(
    input: SchedulerInput,
    needs: Seq<Need>,
    es: Seq<PlacedEntry>,
    items: Seq<UnscheduledItem>,
    owner: Seq<int>,
) -> bool {
    &&& owner.len() == items.len()
    &&& forall|u: int| #![trigger owner[u]] 0 <= u < items.len() ==> 0 <= owner[u] < needs.len() && item_explains(input, needs[owner[u]], items[u])
    &&& forall|j: int| 0 <= j < needs.len() && #[trigger] first_of_pair(needs, j) ==> need_covered(es, items, owner, needs, j)
}

proof fn lemma_classes_extend(old_es: Seq<PlacedEntry>, es: Seq<PlacedEntry>, nb: i64, nc: i64, b: i64, c: i64)
    requires
        old_es.len() <= es.len(),
        es.subrange(0, old_es.len() as int) == old_es,
        forall|k: int| old_es.len() <= k < es.len() ==> #[trigger] es[k].batch_id == nb && es[k].course_id == nc,
    ensures
        classes_of(es, b, c) == classes_of(old_es, b, c) + (if b == nb && c == nc { es.len() - old_es.len() } else { 0int }),
    decreases es.len(),
{
    if es.len() == old_es.len() {
        assert(es =~= old_es);
    } else {
        let d = es.drop_last();
        assert(d.subrange(0, old_es.len() as int) =~= old_es);
        assert forall|k: int| old_es.len() <= k < d.len() implies #[trigger] d[k].batch_id == nb && d[k].course_id == nc by {
            assert(d[k] == es[k]);
        }
        lemma_classes_extend(old_es, d, nb, nc, b, c);
        assert(es.last() == es[es.len() - 1]);
        assert(es[es.len() - 1].batch_id == nb && es[es.len() - 1].course_id == nc);
        assert(classes_of(es, b, c) == classes_of(d, b, c) + (if es.last().batch_id == b && es.last().course_id == c {
            1nat
        } else {
            0nat
        }));
    }
}

proof fn lemma_classes_remove(es: Seq<PlacedEntry>, r: int, b: i64, c: i64)
    requires
        0 <= r < es.len(),
    ensures
        classes_of(es.remove(r), b, c) + (if es[r].batch_id == b && es[r].course_id == c { 1int } else { 0int })
            == classes_of(es, b, c),
    decreases es.len(),
{
    if r == es.len() - 1 {
        assert(es.remove(r) =~= es.drop_last());
    } else {
        let d = es.drop_last();
        lemma_classes_remove(d, r, b, c);
        assert(es.remove(r).drop_last() =~= d.remove(r));
        assert(es.remove(r).last() == es.last());
        assert(d[r] == es[r]);
    }
}

/// Removing one element keeps every other value in the list.
proof fn lemma_remove_keeps(p: Seq<usize>, pos: int, x: usize)
    requires
        0 <= pos < p.len(),
        p.contains(x),
        p[pos] != x,
    ensures
        p.remove(pos).contains(x),
{
    let i = choose|i: int| 0 <= i < p.len() && p[i] == x;
    if i < pos {
        assert(p.remove(pos)[i] == x);
    } else {
        assert(p.remove(pos)[i - 1] == x);
    }
}

/// A need's report stays valid as more classes and reports come.
proof fn lemma_covered_grows(
    es: Seq<PlacedEntry>,
    es2: Seq<PlacedEntry>,
    items: Seq<UnscheduledItem>,
    items2: Seq<UnscheduledItem>,
    owner: Seq<int>,
    owner2: Seq<int>,
    needs: Seq<Need>,
    j: int,
)
    requires
        0 <= j < needs.len(),
        need_covered(es, items, owner, needs, j),
        classes_of(es, needs[j].batch_id, needs[j].course_id) <= classes_of(es2, needs[j].batch_id, needs[j].course_id),
        items.len() <= items2.len(),
        owner.len() == items.len(),
        owner2.len() == items2.len(),
        items2.subrange(0, items.len() as int) == items,
        owner2.subrange(0, owner.len() as int) == owner,
    ensures
        need_covered(es2, items2, owner2, needs, j),
{
    let n = needs[j];
    if classes_of(es, n.batch_id, n.course_id) < n.hours {
        let u = choose|u: int| 0 <= u < items.len() && owner[u] == j && classes_of(es, n.batch_id, n.course_id)
            + #[trigger] items[u].hours_needed >= n.hours;
        assert(items2[u] == items[u]);
        assert(owner2[u] == owner[u]);
    }
}

/// After a need is reported in full and taken off the pending list, the
/// reports still explain their needs and every finished first need is
/// covered.
proof fn lemma_after_report(
    input: SchedulerInput,
    needs: Seq<Need>,
    es: Seq<PlacedEntry>,
    items: Seq<UnscheduledItem>,
    items2: Seq<UnscheduledItem>,
    owner: Seq<int>,
    owner2: Seq<int>,
    p0: Seq<usize>,
    p1: Seq<usize>,
    pos: int,
    hours: int,
)
    requires
        0 <= pos < p0.len(),
        0 <= p0[pos] < needs.len(),
        needs.len() <= usize::MAX,
        p1 == p0.remove(pos),
        hours == needs[p0[pos] as int].hours,
        owner.len() == items.len(),
        items2 == items.push(items2.last()),
        owner2 == owner.push(p0[pos] as int),
        items2.last().hours_needed == hours,
        item_explains(input, needs[p0[pos] as int], items2.last()),
        forall|u: int| #![trigger owner[u]] 0 <= u < items.len() ==> 0 <= owner[u] < needs.len()
            && item_explains(input, needs[owner[u]], items[u]),
        forall|j: int| 0 <= j < needs.len() && #[trigger] first_of_pair(needs, j) && !p0.contains(j as usize)
            ==> need_covered(es, items, owner, needs, j),
    ensures
        owner2.len() == items2.len(),
        forall|u: int| #![trigger owner2[u]] 0 <= u < items2.len() ==> 0 <= owner2[u] < needs.len()
            && item_explains(input, needs[owner2[u]], items2[u]),
        forall|j: int| 0 <= j < needs.len() && #[trigger] first_of_pair(needs, j) && !p1.contains(j as usize)
            ==> need_covered(es, items2, owner2, needs, j),
{
    assert(items2.subrange(0, items.len() as int) =~= items);
    assert(owner2.subrange(0, owner.len() as int) =~= owner);
    assert forall|u: int| #![trigger owner2[u]] 0 <= u < items2.len() implies 0 <= owner2[u] < needs.len()
        && item_explains(input, needs[owner2[u]], items2[u]) by {
        if u < items.len() {
            assert(items2[u] == items[u] && owner2[u] == owner[u]);
        }
    }
    assert forall|j: int| 0 <= j < needs.len() && #[trigger] first_of_pair(needs, j) && !p1.contains(j as usize)
        implies need_covered(es, items2, owner2, needs, j) by {
        if j != p0[pos] as int {
            if p0.contains(j as usize) {
                assert(j as usize != p0[pos]);
                lemma_remove_keeps(p0, pos, j as usize);
            }
            lemma_covered_grows(es, es, items, items2, owner, owner2, needs, j);
        } else {
            let last = items.len() as int;
            assert(owner2[last] == j);
            assert(items2[last] == items2.last());
        }
    }
}

// ── The run as a sequence of rounds ─────────────────────────────────────────

/// The needs of the pending list other than `idx`, in list order.
pub open spec fn others(needs: Seq<Need>, pend: Seq<usize>, idx: usize) -> Seq<Need>
    decreases pend.len(),
{
    if pend.len() == 0 {
        Seq::empty()
    } else {
        let r = others(needs, pend.drop_last(), idx);
        if pend.last() != idx {
            r.push(needs[pend.last() as int])
        } else {
            r
        }
    }
}

/// Position `r` of the pending list holds the need picked next: the first
/// one lacking a lecturer, if any; else the first with the smallest domain.
pub open spec fn pick_ok(
    input: SchedulerInput,
    days: Seq<Seq<char>>,
    needs: Seq<Need>,
    pend: Seq<usize>,
    es: Seq<PlacedEntry>,
    r: int,
) -> bool {
    &&& 0 <= r < pend.len()
    &&& (exists|p: int| 0 <= p < pend.len() && lacks_lecturer(input, #[trigger] needs[pend[p] as int]))
        ==> lacks_lecturer(input, needs[pend[r] as int]) && forall|p: int|
        0 <= p < r ==> !lacks_lecturer(input, #[trigger] needs[pend[p] as int])
    &&& !(exists|p: int| 0 <= p < pend.len() && lacks_lecturer(input, #[trigger] needs[pend[p] as int]))
        ==> forall|p: int| 0 <= p < pend.len() && (#[trigger] need_domain(input, days, es, needs[pend[p] as int])) is Some
        ==> need_domain(input, days, es, needs[pend[r] as int]) is Some
            && need_domain(input, days, es, needs[pend[r] as int])->0
            <= need_domain(input, days, es, needs[pend[p] as int])->0
            && (p < r ==> need_domain(input, days, es, needs[pend[r] as int])->0
            < need_domain(input, days, es, needs[pend[p] as int])->0)
}

/// `v` is the ranked candidate list of the need (see `csp_candidates`).
pub open spec fn csp_cands_ok(
    input: SchedulerInput,
    days: Seq<Seq<char>>,
    es: Seq<PlacedEntry>,
    need: Need,
    c: Course,
    l: Lecturer,
    lid: i64,
    b: Batch,
    remaining: Seq<Need>,
    v: Seq<CspChoice>,
) -> bool {
    &&& forall|i: int| 0 <= i < v.len() ==> csp_choice_fits(input, days, c, l, b, #[trigger] v[i])
    &&& forall|i: int| 0 <= i < v.len() ==> csp_key_ok(input, days, es, need, c, l, lid, remaining, #[trigger] v[i])
    &&& forall|i: int, j: int| 0 <= i <= j < v.len() ==> csp_le(#[trigger] v[i], #[trigger] v[j])
    &&& forall|i: int| 0 <= i < v.len() ==> csp_cell_open(input, days, es, need, c, l, lid, b, #[trigger] v[i].day as int, v[i].slot)
        && first_free_room(input.rooms@, es, c, b, days[v[i].day as int], v[i].slot, v[i].room as int)
    &&& forall|d: int, s: i64| 0 <= d < days.len() && 0 <= s < 8 && #[trigger] csp_cell_open(input, days, es, need, c, l, lid, b, d, s)
        ==> csp_has_cell(v, d, s)
    &&& forall|i: int, j: int| 0 <= i < j < v.len() ==> !(#[trigger] v[i].day == #[trigger] v[j].day && v[i].slot == v[j].slot)
}

/// `items2` is `items` with one more report, about batch `b` and course `c`,
/// leaving `hours` unplaced for `reason`.
pub open spec fn pushed_report(
    items: Seq<UnscheduledItem>,
    items2: Seq<UnscheduledItem>,
    b: Batch,
    c: Course,
    hours: int,
    reason: Seq<char>,
) -> bool {
    &&& items2.len() == items.len() + 1
    &&& items2.subrange(0, items.len() as int) == items
    &&& items2.last().batch_name@ == b.name@
    &&& items2.last().course_code@ == c.code@
    &&& items2.last().course_name@ == c.name@
    &&& items2.last().hours_needed == hours
    &&& items2.last().reason@ == reason
}

/// Position `k` holds the last class taught by the lecturer or given to the
/// batch.
pub open spec fn last_conflict_at(es: Seq<PlacedEntry>, lid: i64, batch_id: i64, k: int) -> bool {
    &&& 0 <= k < es.len()
    &&& conflicts(es[k], lid, batch_id)
    &&& forall|j: int| k < j < es.len() ==> !conflicts(#[trigger] es[j], lid, batch_id)
}

/// `op` is the position of the first need for the batch and the course, if
/// any.
pub open spec fn first_pair(needs: Seq<Need>, batch_id: i64, course_id: i64, op: Option<usize>) -> bool {
    match op {
        Some(k) => k < needs.len() && needs[k as int].batch_id == batch_id && needs[k as int].course_id == course_id
            && forall|j: int| 0 <= j < k ==> !(#[trigger] needs[j].batch_id == batch_id && needs[j].course_id == course_id),
        None => forall|j: int| 0 <= j < needs.len() ==> !(#[trigger] needs[j].batch_id == batch_id && needs[j].course_id == course_id),
    }
}

/// One round of the scheduler, from state `s` to state `t` (classes,
/// pending need positions, reports, backjumps used), with the pick `pos`,
/// the candidate list `cands`, the filled candidates `used` up to `stop`
/// giving the classes `e1`, the undone class `k` and the need `op` it puts
/// back:
/// - a need whose course has no lecturer, or an unknown one, is reported
///   and leaves the pending list;
/// - otherwise its ranked candidates are filled in order; a need that got
///   all its sessions leaves the list;
/// - a need left short, while backjumps remain and some class is taught by
///   its lecturer or given to its batch, undoes the last such class and puts
///   that class's need back if it is not pending;
/// - otherwise its shortfall is reported and it leaves the list.
#[verifier::opaque]
pub open spec fn csp_round_with(
    input: SchedulerInput,
    days: Seq<Seq<char>>,
    needs: Seq<Need>,
    s: (Seq<PlacedEntry>, Seq<usize>, Seq<UnscheduledItem>, int),
    t: (Seq<PlacedEntry>, Seq<usize>, Seq<UnscheduledItem>, int),
    pos: int,
    cands: Seq<CspChoice>,
    used: Seq<int>,
    stop: int,
    e1: Seq<PlacedEntry>,
    k: int,
    op: Option<usize>,
) -> bool {
    let es = s.0;
    let pend = s.1;
    let items = s.2;
    let bj = s.3;
    let idx = pend[pos];
    let n = needs[idx as int];
    let cs = input.courses@;
    let ls = input.lecturers@;
    let bs = input.batches@;
    let ci = course_index(cs, n.course_id);
    let bi = batch_index(bs, n.batch_id);
    &&& pick_ok(input, days, needs, pend, es, pos)
    &&& if bi < 0 || ci < 0 {
        t == (es, pend.remove(pos), items, bj)
    } else {
        let c = cs[ci];
        let b = bs[bi];
        match c.lecturer_id {
            None => t.0 == es && t.1 == pend.remove(pos) && t.3 == bj && pushed_report(
                items,
                t.2,
                b,
                c,
                n.hours as int,
                "No lecturer assigned to course"@,
            ),
            Some(lid) => if lecturer_index(ls, lid) < 0 {
                t.0 == es && t.1 == pend.remove(pos) && t.3 == bj && pushed_report(
                    items,
                    t.2,
                    b,
                    c,
                    n.hours as int,
                    "Assigned lecturer not found"@,
                )
            } else {
                let l = ls[lecturer_index(ls, lid)];
                let placed = used.len() as int;
                &&& csp_cands_ok(input, days, es, n, c, l, lid, b, others(needs, pend, idx), cands)
                &&& csp_fill(input, days, n, c, l, lid, cands, es, e1, used, stop)
                &&& (stop == cands.len() || placed >= n.hours || week_load(e1, lid) >= l.max_hours_per_week)
                &&& if placed >= n.hours {
                    t == (e1, pend.remove(pos), items, bj)
                } else if bj < MAX_BACKJUMPS && last_conflict_at(e1, lid, n.batch_id, k) {
                    &&& first_pair(needs, e1[k].batch_id, e1[k].course_id, op)
                    &&& t.0 == e1.remove(k)
                    &&& t.1 == (match op {
                        Some(o) => if pend.contains(o) { pend } else { pend.push(o) },
                        None => pend,
                    })
                    &&& t.2 == items
                    &&& t.3 == bj + 1
                } else {
                    &&& (bj >= MAX_BACKJUMPS || forall|j: int| 0 <= j < e1.len() ==> !conflicts(#[trigger] e1[j], lid, n.batch_id))
                    &&& t.0 == e1
                    &&& t.1 == pend.remove(pos)
                    &&& t.3 == bj
                    &&& pushed_report(items, t.2, b, c, n.hours - placed, partial_reason(placed, n.hours as int))
                }
            },
        }
    }
}

/// One round of the scheduler leads from `s` to `t`.
pub open spec fn csp_round(
    input: SchedulerInput,
    days: Seq<Seq<char>>,
    needs: Seq<Need>,
    s: (Seq<PlacedEntry>, Seq<usize>, Seq<UnscheduledItem>, int),
    t: (Seq<PlacedEntry>, Seq<usize>, Seq<UnscheduledItem>, int),
) -> bool {
    exists|pos: int, cands: Seq<CspChoice>, used: Seq<int>, stop: int, e1: Seq<PlacedEntry>, k: int, op: Option<usize>|
        #[trigger] csp_round_with(input, days, needs, s, t, pos, cands, used, stop, e1, k, op)
}

/// The states of a run: it starts with no classes, every need pending in
/// order, no reports and no backjumps used, and each state follows the one
/// before by a round.
pub open spec fn csp_trace(
    input: SchedulerInput,
    days: Seq<Seq<char>>,
    needs: Seq<Need>,
    tr: Seq<(Seq<PlacedEntry>, Seq<usize>, Seq<UnscheduledItem>, int)>,
) -> bool {
    &&& tr.len() >= 1
    &&& tr[0] == (Seq::<PlacedEntry>::empty(), Seq::new(needs.len(), |i: int| i as usize), Seq::<UnscheduledItem>::empty(), 0int)
    &&& forall|t: int| 0 <= t < tr.len() - 1 ==> csp_round(input, days, needs, #[trigger] tr[t], tr[t + 1])
}

/// The round of a need whose course has no lecturer, or an unknown one.
proof fn lemma_round_lacking(
    input: SchedulerInput,
    days: Seq<Seq<char>>,
    needs: Seq<Need>,
    s: (Seq<PlacedEntry>, Seq<usize>, Seq<UnscheduledItem>, int),
    t: (Seq<PlacedEntry>, Seq<usize>, Seq<UnscheduledItem>, int),
    pos: int,
    ci: int,
    bi: int,
    reason: Seq<char>,
)
    requires
        pick_ok(input, days, needs, s.1, s.0, pos),
        ci == course_index(input.courses@, needs[s.1[pos] as int].course_id),
        bi == batch_index(input.batches@, needs[s.1[pos] as int].batch_id),
        ci >= 0,
        bi >= 0,
        match input.courses@[ci].lecturer_id {
            None => reason == "No lecturer assigned to course"@,
            Some(lid) => lecturer_index(input.lecturers@, lid) < 0 && reason == "Assigned lecturer not found"@,
        },
        t.0 == s.0,
        t.1 == s.1.remove(pos),
        t.3 == s.3,
        pushed_report(s.2, t.2, input.batches@[bi], input.courses@[ci], needs[s.1[pos] as int].hours as int, reason),
    ensures
        csp_round(input, days, needs, s, t),
{
    reveal(csp_round_with);
    assert(csp_round_with(input, days, needs, s, t, pos, Seq::empty(), Seq::empty(), 0, s.0, 0, None));
}

/// The round of a need that got all its sessions, or that is reported short
/// (`undone` is `None`), or that undoes class `k` and puts need `op` back.
proof fn lemma_round_filled(
    input: SchedulerInput,
    days: Seq<Seq<char>>,
    needs: Seq<Need>,
    s: (Seq<PlacedEntry>, Seq<usize>, Seq<UnscheduledItem>, int),
    t: (Seq<PlacedEntry>, Seq<usize>, Seq<UnscheduledItem>, int),
    pos: int,
    ci: int,
    bi: int,
    li: int,
    lid: i64,
    cands: Seq<CspChoice>,
    used: Seq<int>,
    stop: int,
    e1: Seq<PlacedEntry>,
    k: int,
    op: Option<usize>,
)
    requires
        pick_ok(input, days, needs, s.1, s.0, pos),
        ci == course_index(input.courses@, needs[s.1[pos] as int].course_id),
        bi == batch_index(input.batches@, needs[s.1[pos] as int].batch_id),
        ci >= 0,
        bi >= 0,
        input.courses@[ci].lecturer_id == Some(lid),
        li == lecturer_index(input.lecturers@, lid),
        li >= 0,
        csp_cands_ok(
            input,
            days,
            s.0,
            needs[s.1[pos] as int],
            input.courses@[ci],
            input.lecturers@[li],
            lid,
            input.batches@[bi],
            others(needs, s.1, s.1[pos]),
            cands,
        ),
        csp_fill(input, days, needs[s.1[pos] as int], input.courses@[ci], input.lecturers@[li], lid, cands, s.0, e1, used, stop),
        stop == cands.len() || used.len() >= needs[s.1[pos] as int].hours || week_load(e1, lid)
            >= input.lecturers@[li].max_hours_per_week,
        ({
            let n = needs[s.1[pos] as int];
            let placed = used.len() as int;
            if placed >= n.hours {
                t == (e1, s.1.remove(pos), s.2, s.3)
            } else if s.3 < MAX_BACKJUMPS && last_conflict_at(e1, lid, n.batch_id, k) {
                &&& first_pair(needs, e1[k].batch_id, e1[k].course_id, op)
                &&& t.0 == e1.remove(k)
                &&& t.1 == (match op {
                    Some(o) => if s.1.contains(o) { s.1 } else { s.1.push(o) },
                    None => s.1,
                })
                &&& t.2 == s.2
                &&& t.3 == s.3 + 1
            } else {
                &&& (s.3 >= MAX_BACKJUMPS || forall|j: int| 0 <= j < e1.len() ==> !conflicts(#[trigger] e1[j], lid, n.batch_id))
                &&& t.0 == e1
                &&& t.1 == s.1.remove(pos)
                &&& t.3 == s.3
                &&& pushed_report(s.2, t.2, input.batches@[bi], input.courses@[ci], n.hours - placed, partial_reason(placed, n.hours as int))
            }
        }),
    ensures
        csp_round(input, days, needs, s, t),
{
    reveal(csp_round_with);
    assert(csp_round_with(input, days, needs, s, t, pos, cands, used, stop, e1, k, op));
}

/// A whole run: its states follow one another by rounds, it ends with no
/// need pending and with the timetable `es` and the reports `items`, round
/// `t` picks `picks[t]`, and each report is true of the timetable its
/// round ends with.
pub open spec fn csp_run(
    input: SchedulerInput,
    days: Seq<Seq<char>>,
    needs: Seq<Need>,
    tr: Seq<(Seq<PlacedEntry>, Seq<usize>, Seq<UnscheduledItem>, int)>,
    picks: Seq<int>,
    es: Seq<PlacedEntry>,
    items: Seq<UnscheduledItem>,
) -> bool {
    &&& csp_trace(input, days, needs, tr)
    &&& tr.last().1.len() == 0
    &&& tr.last().0 == es
    &&& tr.last().2 == items
    &&& picks.len() == tr.len() - 1
    &&& forall|t: int| 0 <= t < picks.len() ==> pick_ok(input, days, needs, tr[t].1, tr[t].0, #[trigger] picks[t])
        && csp_report_justified(input, days, needs, tr[t], tr[t + 1], picks[t])
}

proof fn lemma_picks_push(
    input: SchedulerInput,
    days: Seq<Seq<char>>,
    needs: Seq<Need>,
    tr: Seq<(Seq<PlacedEntry>, Seq<usize>, Seq<UnscheduledItem>, int)>,
    picks: Seq<int>,
    s: (Seq<PlacedEntry>, Seq<usize>, Seq<UnscheduledItem>, int),
    pos: int,
)
    requires
        tr.len() >= 1,
        picks.len() == tr.len() - 1,
        forall|t: int| 0 <= t < picks.len() ==> pick_ok(input, days, needs, tr[t].1, tr[t].0, #[trigger] picks[t])
            && csp_report_justified(input, days, needs, tr[t], tr[t + 1], picks[t]),
        pick_ok(input, days, needs, tr.last().1, tr.last().0, pos),
        csp_report_justified(input, days, needs, tr.last(), s, pos),
    ensures
        ({
            let tr2 = tr.push(s);
            let p2 = picks.push(pos);
            &&& p2.len() == tr2.len() - 1
            &&& forall|t: int| 0 <= t < p2.len() ==> pick_ok(input, days, needs, tr2[t].1, tr2[t].0, #[trigger] p2[t])
                && csp_report_justified(input, days, needs, tr2[t], tr2[t + 1], p2[t])
        }),
{
    let tr2 = tr.push(s);
    let p2 = picks.push(pos);
    assert forall|t: int| 0 <= t < p2.len() implies pick_ok(input, days, needs, tr2[t].1, tr2[t].0, #[trigger] p2[t])
        && csp_report_justified(input, days, needs, tr2[t], tr2[t + 1], p2[t]) by {
        if t < picks.len() {
            assert(p2[t] == picks[t] && tr2[t] == tr[t] && tr2[t + 1] == tr[t + 1]);
        } else {
            assert(p2[t] == pos && tr2[t] == tr.last() && tr2[t + 1] == s);
        }
    }
}

proof fn lemma_trace_push(
    input: SchedulerInput,
    days: Seq<Seq<char>>,
    needs: Seq<Need>,
    tr: Seq<(Seq<PlacedEntry>, Seq<usize>, Seq<UnscheduledItem>, int)>,
    s: (Seq<PlacedEntry>, Seq<usize>, Seq<UnscheduledItem>, int),
)
    requires
        csp_trace(input, days, needs, tr),
        csp_round(input, days, needs, tr.last(), s),
    ensures
        csp_trace(input, days, needs, tr.push(s)),
        tr.push(s).last() == s,
{
    let tr2 = tr.push(s);
    assert forall|t: int| 0 <= t < tr2.len() - 1 implies csp_round(input, days, needs, #[trigger] tr2[t], tr2[t + 1]) by {
        if t < tr.len() - 1 {
            assert(tr2[t] == tr[t] && tr2[t + 1] == tr[t + 1]);
        } else {
            assert(tr2[t] == tr.last());
        }
    }
}

/// No two needs are for the same batch and course.
pub open spec fn distinct_pairs(needs: Seq<Need>) -> bool {
    forall|i: int, j: int|
        0 <= i < j < needs.len() ==> !(#[trigger] needs[i].batch_id == #[trigger] needs[j].batch_id
            && needs[i].course_id == needs[j].course_id)
}

/// No value occurs twice in the list.
pub open spec fn no_dups(p: Seq<usize>) -> bool {
    forall|i: int, j: int| 0 <= i < j < p.len() ==> #[trigger] p[i] != #[trigger] p[j]
}

/// No class of the timetable is for the batch and course of need `n`.
pub open spec fn no_classes_of(es: Seq<PlacedEntry>, n: Need) -> bool {
    forall|m: int| 0 <= m < es.len() ==> !(#[trigger] es[m].batch_id == n.batch_id && es[m].course_id == n.course_id)
}

proof fn lemma_remove_no_dups(p: Seq<usize>, pos: int)
    requires
        no_dups(p),
        0 <= pos < p.len(),
    ensures
        no_dups(p.remove(pos)),
        !p.remove(pos).contains(p[pos]),
        forall|x: usize| #[trigger] p.remove(pos).contains(x) ==> p.contains(x),
{
    let q = p.remove(pos);
    assert forall|i: int, j: int| 0 <= i < j < q.len() implies #[trigger] q[i] != #[trigger] q[j] by {
        let a = if i < pos { i } else { i + 1 };
        let b = if j < pos { j } else { j + 1 };
        assert(q[i] == p[a] && q[j] == p[b]);
    }
    if q.contains(p[pos]) {
        let i = choose|i: int| 0 <= i < q.len() && q[i] == p[pos];
        let a = if i < pos { i } else { i + 1 };
        assert(q[i] == p[a]);
    }
    assert forall|x: usize| #[trigger] q.contains(x) implies p.contains(x) by {
        let i = choose|i: int| 0 <= i < q.len() && q[i] == x;
        let a = if i < pos { i } else { i + 1 };
        assert(q[i] == p[a]);
    }
}

proof fn lemma_push_no_dups(p: Seq<usize>, x: usize)
    requires
        no_dups(p),
        !p.contains(x),
    ensures
        no_dups(p.push(x)),
{
    let q = p.push(x);
    assert forall|i: int, j: int| 0 <= i < j < q.len() implies #[trigger] q[i] != #[trigger] q[j] by {
        if j == p.len() {
            assert(q[i] == p[i]);
        } else {
            assert(q[i] == p[i] && q[j] == p[j]);
        }
    }
}

/// What keeps each need to at most one report: the pending list has no
/// repeats, and when no two needs share a batch and course, a reported need
/// is not pending, has no classes unless the backjumps are used up, and has
/// no other report.
#[verifier::opaque]
pub open spec fn once_inv(needs: Seq<Need>, pend: Seq<usize>, owner: Seq<int>, es: Seq<PlacedEntry>, bj: int) -> bool {
    &&& no_dups(pend)
    &&& distinct_pairs(needs) ==> forall|u: int|
        #![trigger owner[u]]
        0 <= u < owner.len() ==> 0 <= owner[u] < needs.len() && !pend.contains(owner[u] as usize) && (bj
            == MAX_BACKJUMPS || no_classes_of(es, needs[owner[u]]))
    &&& distinct_pairs(needs) ==> forall|u1: int, u2: int|
        0 <= u1 < u2 < owner.len() ==> #[trigger] owner[u1] != #[trigger] owner[u2]
}

/// A need taken off the list with a report keeps the invariant.
proof fn lemma_once_report(
    needs: Seq<Need>,
    pend: Seq<usize>,
    pos: int,
    owner: Seq<int>,
    es: Seq<PlacedEntry>,
    bj: int,
)
    requires
        once_inv(needs, pend, owner, es, bj),
        0 <= pos < pend.len(),
        pend[pos] < needs.len(),
        bj == MAX_BACKJUMPS || no_classes_of(es, needs[pend[pos] as int]),
    ensures
        once_inv(needs, pend.remove(pos), owner.push(pend[pos] as int), es, bj),
{
    reveal(once_inv);
    lemma_remove_no_dups(pend, pos);
    let o2 = owner.push(pend[pos] as int);
    let p2 = pend.remove(pos);
    if distinct_pairs(needs) {
        assert forall|u: int| #![trigger o2[u]] 0 <= u < o2.len() implies 0 <= o2[u] < needs.len() && !p2.contains(o2[u] as usize)
            && (bj == MAX_BACKJUMPS || no_classes_of(es, needs[o2[u]])) by {
            if u < owner.len() {
                assert(o2[u] == owner[u]);
            }
        }
        assert forall|u1: int, u2: int| 0 <= u1 < u2 < o2.len() implies #[trigger] o2[u1] != #[trigger] o2[u2] by {
            if u2 < owner.len() {
                assert(o2[u1] == owner[u1] && o2[u2] == owner[u2]);
            } else {
                assert(o2[u1] == owner[u1]);
                assert(pend.contains(pend[pos]));
            }
        }
    }
}

/// A need taken off the list without a report keeps the invariant.
proof fn lemma_once_done(needs: Seq<Need>, pend: Seq<usize>, pos: int, owner: Seq<int>, es: Seq<PlacedEntry>, bj: int)
    requires
        once_inv(needs, pend, owner, es, bj),
        0 <= pos < pend.len(),
    ensures
        once_inv(needs, pend.remove(pos), owner, es, bj),
{
    reveal(once_inv);
    lemma_remove_no_dups(pend, pos);
}

/// Classes added for a pending need keep the invariant.
proof fn lemma_once_place(
    needs: Seq<Need>,
    pend: Seq<usize>,
    owner: Seq<int>,
    e0: Seq<PlacedEntry>,
    e1: Seq<PlacedEntry>,
    bj: int,
    idx: usize,
)
    requires
        once_inv(needs, pend, owner, e0, bj),
        pend.contains(idx),
        idx < needs.len(),
        e1.len() >= e0.len(),
        e1.subrange(0, e0.len() as int) == e0,
        forall|m: int| e0.len() <= m < e1.len() ==> #[trigger] e1[m].batch_id == needs[idx as int].batch_id
            && e1[m].course_id == needs[idx as int].course_id,
    ensures
        once_inv(needs, pend, owner, e1, bj),
{
    reveal(once_inv);
    if distinct_pairs(needs) {
        assert forall|u: int| #![trigger owner[u]] 0 <= u < owner.len() implies 0 <= owner[u] < needs.len()
            && !pend.contains(owner[u] as usize) && (bj == MAX_BACKJUMPS || no_classes_of(e1, needs[owner[u]])) by {
            if bj != MAX_BACKJUMPS {
                let j = owner[u];
                assert(j != idx);
                assert forall|m: int| 0 <= m < e1.len() implies !(#[trigger] e1[m].batch_id == needs[j].batch_id
                    && e1[m].course_id == needs[j].course_id) by {
                    if m < e0.len() {
                        assert(e1[m] == e0[m]);
                    } else if j < idx {
                        assert(!(needs[j].batch_id == needs[idx as int].batch_id && needs[j].course_id == needs[idx as int].course_id));
                    } else {
                        assert(!(needs[idx as int].batch_id == needs[j].batch_id && needs[idx as int].course_id == needs[j].course_id));
                    }
                }
            }
        }
    }
}

/// Undoing a class and putting its need back keeps the invariant.
proof fn lemma_once_backjump(
    needs: Seq<Need>,
    pend: Seq<usize>,
    owner: Seq<int>,
    e1: Seq<PlacedEntry>,
    bj: int,
    k: int,
    op: Option<usize>,
    p2: Seq<usize>,
)
    requires
        once_inv(needs, pend, owner, e1, bj),
        needs.len() <= usize::MAX,
        bj < MAX_BACKJUMPS,
        0 <= k < e1.len(),
        first_pair(needs, e1[k].batch_id, e1[k].course_id, op),
        p2 == (match op {
            Some(o) => if pend.contains(o) { pend } else { pend.push(o) },
            None => pend,
        }),
    ensures
        once_inv(needs, p2, owner, e1.remove(k), bj + 1),
{
    reveal(once_inv);
    if let Some(o) = op {
        if !pend.contains(o) {
            lemma_push_no_dups(pend, o);
        }
    }
    let e2 = e1.remove(k);
    if distinct_pairs(needs) {
        assert forall|u: int| #![trigger owner[u]] 0 <= u < owner.len() implies 0 <= owner[u] < needs.len()
            && !p2.contains(owner[u] as usize) && (bj + 1 == MAX_BACKJUMPS || no_classes_of(e2, needs[owner[u]])) by {
            let j = owner[u];
            assert(no_classes_of(e1, needs[j]));
            assert(!(e1[k].batch_id == needs[j].batch_id && e1[k].course_id == needs[j].course_id));
            if let Some(o) = op {
                if o as int == j {
                    assert(needs[o as int] == needs[j]);
                }
                assert(o as int != j);
                assert(o != j as usize);
                if !pend.contains(o) {
                    if p2.contains(j as usize) {
                        let w = choose|w: int| 0 <= w < p2.len() && p2[w] == j as usize;
                        if w < pend.len() {
                            assert(pend[w] == j as usize);
                            assert(pend.contains(j as usize));
                        } else {
                            assert(p2[w] == o);
                        }
                    }
                }
            }
            assert forall|m: int| 0 <= m < e2.len() implies !(#[trigger] e2[m].batch_id == needs[j].batch_id
                && e2[m].course_id == needs[j].course_id) by {
                if m < k {
                    assert(e2[m] == e1[m]);
                } else {
                    assert(e2[m] == e1[m + 1]);
                }
            }
        }
    }
}

/// A need whose course has no lecturer, or an unknown one, has no classes.
proof fn lemma_lacking_has_no_classes(input: SchedulerInput, days: Seq<Seq<char>>, es: Seq<PlacedEntry>, n: Need)
    requires
        respects_constraints(input, days, es),
        lacks_lecturer(input, n),
    ensures
        no_classes_of(es, n),
{
    assert forall|m: int| 0 <= m < es.len() implies !(#[trigger] es[m].batch_id == n.batch_id && es[m].course_id == n.course_id) by {
        assert(entry_ok(input, days, es[m]));
    }
}

/// Candidate `j` comes after the first `k` used candidates and before the
/// others.
pub open spec fn is_bracket(used: Seq<int>, j: int, k: int) -> bool {
    0 <= k <= used.len() && (k == 0 || used[k - 1] < j) && (k == used.len() || j < used[k])
}

/// A candidate that was not used lies between two used ones.
proof fn lemma_bracket(used: Seq<int>, j: int)
    requires
        forall|k1: int, k2: int| 0 <= k1 < k2 < used.len() ==> #[trigger] used[k1] < #[trigger] used[k2],
        forall|k: int| 0 <= k < used.len() ==> #[trigger] used[k] != j,
    ensures
        exists|k: int| #[trigger] is_bracket(used, j, k),
    decreases used.len(),
{
    if used.len() > 0 {
        let m = used.len() - 1;
        if used[m] < j {
            assert(is_bracket(used, j, used.len() as int));
        } else {
            let d = used.drop_last();
            assert forall|k1: int, k2: int| 0 <= k1 < k2 < d.len() implies #[trigger] d[k1] < #[trigger] d[k2] by {
                assert(d[k1] == used[k1] && d[k2] == used[k2]);
            }
            assert forall|k: int| 0 <= k < d.len() implies #[trigger] d[k] != j by {
                assert(d[k] == used[k]);
            }
            lemma_bracket(d, j);
            let k = choose|k: int| #[trigger] is_bracket(d, j, k);
            if k > 0 {
                assert(used[k - 1] == d[k - 1]);
            }
            if k < d.len() {
                assert(used[k] == d[k]);
            } else {
                assert(used[m] != j);
            }
            assert(is_bracket(used, j, k));
        }
    } else {
        assert(is_bracket(used, j, 0));
    }
}

/// When a need is left short after its candidates are filled, its
/// lecturer is at the weekly limit or no working day and slot is open for
/// another class of it.
proof fn lemma_shortfall_true(
    input: SchedulerInput,
    days: Seq<Seq<char>>,
    n: Need,
    lid: i64,
    es: Seq<PlacedEntry>,
    remaining: Seq<Need>,
    cands: Seq<CspChoice>,
    e1: Seq<PlacedEntry>,
    used: Seq<int>,
    stop: int,
)
    requires
        course_index(input.courses@, n.course_id) >= 0,
        batch_index(input.batches@, n.batch_id) >= 0,
        lecturer_index(input.lecturers@, lid) >= 0,
        csp_cands_ok(
            input,
            days,
            es,
            n,
            input.courses@[course_index(input.courses@, n.course_id)],
            input.lecturers@[lecturer_index(input.lecturers@, lid)],
            lid,
            input.batches@[batch_index(input.batches@, n.batch_id)],
            remaining,
            cands,
        ),
        csp_fill(
            input,
            days,
            n,
            input.courses@[course_index(input.courses@, n.course_id)],
            input.lecturers@[lecturer_index(input.lecturers@, lid)],
            lid,
            cands,
            es,
            e1,
            used,
            stop,
        ),
        stop == cands.len() || week_load(e1, lid) >= input.lecturers@[lecturer_index(input.lecturers@, lid)].max_hours_per_week,
        no_double_booking(e1),
    ensures
        week_load(e1, lid) >= input.lecturers@[lecturer_index(input.lecturers@, lid)].max_hours_per_week || forall|d: int, sl: i64|
            0 <= d < days.len() && is_time_slot(sl) ==> !#[trigger] slot_open(input, e1, n, lid, days[d], sl),
{
    let c = input.courses@[course_index(input.courses@, n.course_id)];
    let l = input.lecturers@[lecturer_index(input.lecturers@, lid)];
    let b = input.batches@[batch_index(input.batches@, n.batch_id)];
    let rs = input.rooms@;
    if week_load(e1, lid) < l.max_hours_per_week {
        assert forall|d: int, sl: i64| 0 <= d < days.len() && is_time_slot(sl) implies !#[trigger] slot_open(input, e1, n, lid, days[d], sl) by {
            let day = days[d];
            if slot_open(input, e1, n, lid, day, sl) {
                assert(e1.subrange(0, es.len() as int) == es);
                lemma_slot_open_prefix(input, e1, es.len() as int, n, lid, day, sl);
                assert(slot_open(input, es, n, lid, day, sl));
                assert(csp_cell_open(input, days, es, n, c, l, lid, b, d, sl));
                assert(csp_has_cell(cands, d, sl));
                let j = choose|j: int| 0 <= j < cands.len() && #[trigger] cands[j].day == d && cands[j].slot == sl;
                if exists|k: int| 0 <= k < used.len() && #[trigger] used[k] == j {
                    let k = choose|k: int| 0 <= k < used.len() && #[trigger] used[k] == j;
                    let m = es.len() + k;
                    assert(csp_entry_of(input, days, n, c, lid, cands[used[k]], e1[m]));
                    assert(batch_busy(e1, n.batch_id, day, sl));
                } else {
                    lemma_bracket(used, j);
                    let k = choose|k: int| #[trigger] is_bracket(used, j, k);
                    let st = csp_state(es, e1, k);
                    assert(!csp_try_ok(input, days, st, n, l, lid, cands[j]));
                    assert(st == e1.subrange(0, es.len() + k));
                    if slot_open(input, st, n, lid, day, sl) {
                        let rid = rs[cands[j].room as int].id;
                        assert(first_free_room(rs, es, c, b, days[cands[j].day as int], cands[j].slot, cands[j].room as int));
                        assert(room_busy(st, rid, day, sl));
                        let m = choose|m: int| #![trigger st[m]] 0 <= m < st.len() && st[m].room_id == rid && st[m].day@ == day && st[m].time_slot == sl;
                        if m < es.len() {
                            assert(es[m] == st[m]);
                            assert(room_busy(es, rid, day, sl));
                        } else {
                            let kk = m - es.len();
                            assert(st[m] == e1[m]);
                            assert(csp_entry_of(input, days, n, c, lid, cands[used[kk]], e1[es.len() + kk]));
                            assert(batch_busy(st, n.batch_id, day, sl));
                        }
                    }
                    lemma_slot_open_prefix(input, e1, es.len() + k, n, lid, day, sl);
                }
            }
        }
    }
}

/// A report made in the round from `s` to `t`, whose pick is `pos`, is true
/// of the timetable the round ends with: the need's lecturer is at the
/// weekly limit, or no working day and slot is open for another class of
/// the need.
pub open spec fn csp_report_justified(
    input: SchedulerInput,
    days: Seq<Seq<char>>,
    needs: Seq<Need>,
    s: (Seq<PlacedEntry>, Seq<usize>, Seq<UnscheduledItem>, int),
    t: (Seq<PlacedEntry>, Seq<usize>, Seq<UnscheduledItem>, int),
    pos: int,
) -> bool {
    let n = needs[s.1[pos] as int];
    let cs = input.courses@;
    let ls = input.lecturers@;
    let ci = course_index(cs, n.course_id);
    (t.2.len() > s.2.len() && ci >= 0 && batch_index(input.batches@, n.batch_id) >= 0) ==> match cs[ci].lecturer_id {
        Some(lid) => lecturer_index(ls, lid) >= 0 ==> (week_load(t.0, lid) >= ls[lecturer_index(ls, lid)].max_hours_per_week
            || forall|d: int, sl: i64| 0 <= d < days.len() && is_time_slot(sl) ==> !#[trigger] slot_open(input, t.0, n, lid, days[d], sl)),
        None => true,
    }
}

/// Backjumps allowed in one run.
pub const MAX_BACKJUMPS: usize = 300;

/// Builds a timetable by constraint satisfaction. Until no need is
/// pending: the most constrained pending need (a need lacking a lecturer
/// first, else the smallest domain) is taken; its candidates are ranked with
/// the least-constraining cost as the last key and filled while it owes
/// sessions. A need left short may undo the latest class of its lecturer or
/// batch and put that class's need back (at most `MAX_BACKJUMPS` times), and
/// is then tried again; otherwise its shortfall is reported.
///
/// The result is the end of a run of such rounds (`csp_run`), each round
/// fixed by its pick, its ranked candidates and their filling, its backjump
/// and its report; a shortfall report is true of the timetable at its
/// round. The timetable respects every hard constraint, each report names a
/// need and says why, the first need of every batch and course ends with
/// all its sessions placed or with a report about it that covers what is
/// missing, and where no two needs share a batch and course no need is
/// reported twice.
#[verifier::rlimit(100)]
#[verifier::spinoff_prover]
pub fn generate_csp(input: &SchedulerInput) -> (r: ScheduleResult)
    requires
        sessions_fit(*input),
        input.working_days@.len() * 8 <= usize::MAX,
        (needs_of(*input).len() + MAX_BACKJUMPS) * 3 <= i64::MAX,
    ensures
        respects_constraints(*input, effective_days(input.working_days.deep_view()), r.entries@),
        forall|j: int| 0 <= j < r.unscheduled@.len() ==> explained(*input, needs_of(*input), #[trigger] r.unscheduled@[j]),
        exists|owner: Seq<int>|
            csp_reports_cover(*input, needs_of(*input), r.entries@, r.unscheduled@, owner) && (distinct_pairs(needs_of(*input))
                ==> forall|u1: int, u2: int| 0 <= u1 < u2 < owner.len() ==> #[trigger] owner[u1] != #[trigger] owner[u2]),
        exists|tr: Seq<(Seq<PlacedEntry>, Seq<usize>, Seq<UnscheduledItem>, int)>, picks: Seq<int>|
            #[trigger] csp_run(*input, effective_days(input.working_days.deep_view()), needs_of(*input), tr, picks, r.entries@, r.unscheduled@),
{
    let days = resolve_days(&input.working_days);
    let ghost dv = days.deep_view();
    let needs = build_needs(input);
    proof {
        assert(dv.len() == days@.len());
    }
    let mut entries: Vec<PlacedEntry> = Vec::new();
    let mut unscheduled: Vec<UnscheduledItem> = Vec::new();
    let mut pending: Vec<usize> = Vec::new();
    let mut q: usize = 0;
    while q < needs.len()
        invariant
            q <= needs@.len(),
            pending@.len() == q,
            forall|i: int| 0 <= i < pending@.len() ==> #[trigger] pending@[i] == i,
        decreases needs@.len() - q,
    {
        pending.push(q);
        q = q + 1;
    }
    proof {
        assert forall|j: int| #![trigger needs@[j]] 0 <= j < needs@.len() implies pending@.contains(j as usize) by {
            assert(pending@[j] == j);
        }
    }
    let mut backjumps: usize = 0;
    let ghost mut owner: Seq<int> = Seq::empty();
    let ghost mut picks: Seq<int> = Seq::empty();
    let ghost mut tr: Seq<(Seq<PlacedEntry>, Seq<usize>, Seq<UnscheduledItem>, int)> = seq![
        (entries@, pending@, unscheduled@, 0int),
    ];
    proof {
        assert(pending@ =~= Seq::new(needs@.len(), |i: int| i as usize));
        assert forall|i: int, j: int| 0 <= i < j < pending@.len() implies #[trigger] pending@[i] != #[trigger] pending@[j] by {
            assert(pending@[i] == i && pending@[j] == j);
        }
        reveal(once_inv);
        assert(entries@ =~= Seq::<PlacedEntry>::empty());
        assert(unscheduled@ =~= Seq::<UnscheduledItem>::empty());
    }
    while pending.len() > 0
        invariant
            dv == days.deep_view(),
            dv == effective_days(input.working_days.deep_view()),
            days@.len() * 8 <= usize::MAX,
            needs@ == needs_of(*input),
            needs@.len() <= usize::MAX,
            forall|i: int| 0 <= i < needs@.len() ==> need_ok(*input, #[trigger] needs@[i]),
            forall|i: int| 0 <= i < pending@.len() ==> #[trigger] pending@[i] < needs@.len(),
            backjumps <= MAX_BACKJUMPS,
            pending@.len() <= needs@.len() + backjumps,
            (needs@.len() + MAX_BACKJUMPS) * 3 <= i64::MAX,
            respects_constraints(*input, dv, entries@),
            owner.len() == unscheduled@.len(),
            forall|u: int| #![trigger owner[u]] 0 <= u < unscheduled@.len() ==> 0 <= owner[u] < needs@.len()
                && item_explains(*input, needs@[owner[u]], unscheduled@[u]),
            forall|j: int| 0 <= j < needs@.len() && #[trigger] first_of_pair(needs@, j) && !pending@.contains(j as usize)
                ==> need_covered(entries@, unscheduled@, owner, needs@, j),
            forall|k: int| 0 <= k < entries@.len() ==> exists|i: int| 0 <= i < needs@.len() && needs@[i].batch_id
                == #[trigger] entries@[k].batch_id && needs@[i].course_id == entries@[k].course_id,
            csp_trace(*input, dv, needs@, tr),
            tr.last() == (entries@, pending@, unscheduled@, backjumps as int),
            picks.len() == tr.len() - 1,
            forall|t: int| 0 <= t < picks.len() ==> pick_ok(*input, dv, needs@, tr[t].1, tr[t].0, #[trigger] picks[t])
                && csp_report_justified(*input, dv, needs@, tr[t], tr[t + 1], picks[t]),
            once_inv(needs@, pending@, owner, entries@, backjumps as int),
        decreases MAX_BACKJUMPS - backjumps, pending@.len(),
    {
        let pos = pick_need(input, &needs, &pending, &days, &entries);
        let ghost s0 = (entries@, pending@, unscheduled@, backjumps as int);
        assert(pick_ok(*input, dv, needs@, pending@, entries@, pos as int));
        let idx = pending[pos];
        let n = needs[idx];
        assert(need_ok(*input, needs@[idx as int]));
        let ghost p0 = pending@;
        let ghost e_start = entries@;
        let ghost u_start = unscheduled@;
        let ghost o_start = owner;
        let bi = match find_batch(&input.batches, n.batch_id) {
            Some(b) => b,
            None => {
                proof {
                    lemma_batch_index(input.batches@, n.batch_id);
                    let b = choose|b: int| 0 <= b < input.batches@.len() && #[trigger] input.batches@[b].id == n.batch_id
                        && input.batches@[b].course_ids@.contains(n.course_id);
                    assert(false);
                }
                pending.remove(pos);
                continue;
            },
        };
        let ci = match find_course(&input.courses, n.course_id) {
            Some(c) => c,
            None => {
                proof {
                    assert(false);
                }
                pending.remove(pos);
                continue;
            },
        };
        let course = &input.courses[ci];
        let batch = &input.batches[bi];
        let ghost u_before = unscheduled@;
        let lid = match course.lecturer_id {
            Some(l) => l,
            None => {
                let u = report(batch, course, n.hours, String::from_str("No lecturer assigned to course"));
                assert(item_explains(*input, needs@[idx as int], u));
                unscheduled.push(u);
                proof {
                    lemma_lacking_has_no_classes(*input, dv, entries@, n);
                    lemma_once_report(needs@, pending@, pos as int, owner, entries@, backjumps as int);
                }
                pending.remove(pos);
                proof {
                    owner = owner.push(idx as int);
                    lemma_after_report(*input, needs@, e_start, u_start, unscheduled@, o_start, owner, p0, pending@, pos as int, n.hours as int);
                    let s1 = (entries@, pending@, unscheduled@, backjumps as int);
                    assert(unscheduled@.subrange(0, u_start.len() as int) =~= u_start);
                    lemma_round_lacking(*input, dv, needs@, s0, s1, pos as int, ci as int, bi as int, "No lecturer assigned to course"@);
                    lemma_trace_push(*input, dv, needs@, tr, s1);
                    lemma_picks_push(*input, dv, needs@, tr, picks, s1, pos as int);
                    tr = tr.push(s1);
                    picks = picks.push(pos as int);
                }
                continue;
            },
        };
        let li = match find_lecturer(&input.lecturers, lid) {
            Some(l) => l,
            None => {
                let u = report(batch, course, n.hours, String::from_str("Assigned lecturer not found"));
                assert(item_explains(*input, needs@[idx as int], u));
                unscheduled.push(u);
                proof {
                    lemma_lacking_has_no_classes(*input, dv, entries@, n);
                    lemma_once_report(needs@, pending@, pos as int, owner, entries@, backjumps as int);
                }
                pending.remove(pos);
                proof {
                    owner = owner.push(idx as int);
                    lemma_after_report(*input, needs@, e_start, u_start, unscheduled@, o_start, owner, p0, pending@, pos as int, n.hours as int);
                    let s1 = (entries@, pending@, unscheduled@, backjumps as int);
                    assert(unscheduled@.subrange(0, u_start.len() as int) =~= u_start);
                    lemma_round_lacking(*input, dv, needs@, s0, s1, pos as int, ci as int, bi as int, "Assigned lecturer not found"@);
                    lemma_trace_push(*input, dv, needs@, tr, s1);
                    lemma_picks_push(*input, dv, needs@, tr, picks, s1, pos as int);
                    tr = tr.push(s1);
                    picks = picks.push(pos as int);
                }
                continue;
            },
        };
        let lec = &input.lecturers[li];
        let mut remaining: Vec<Need> = Vec::new();
        let mut t: usize = 0;
        while t < pending.len()
            invariant
                t <= pending@.len(),
                remaining@.len() <= t,
                forall|i: int| 0 <= i < pending@.len() ==> #[trigger] pending@[i] < needs@.len(),
                remaining@ == others(needs@, pending@.subrange(0, t as int), idx),
            decreases pending@.len() - t,
        {
            proof {
                assert(pending@.subrange(0, t + 1).drop_last() =~= pending@.subrange(0, t as int));
            }
            if pending[t] != idx {
                remaining.push(needs[pending[t]]);
            }
            t = t + 1;
        }
        proof {
            assert(pending@.subrange(0, pending@.len() as int) =~= pending@);
        }
        let cands = csp_candidates(input, &days, n, course, lec, lid, batch, &entries, &remaining);
        let placed = csp_place(input, &days, n, ci, li, bi, lid, &cands, &mut entries);
        let ghost (used, stop) = choose|used: Seq<int>, stop: int|
            csp_fill(
                *input,
                dv,
                n,
                input.courses@[ci as int],
                input.lecturers@[li as int],
                lid,
                cands@,
                e_start,
                entries@,
                used,
                stop,
            ) && used.len() == placed && (stop == cands@.len() || placed >= n.hours || week_load(entries@, lid)
                >= input.lecturers@[li as int].max_hours_per_week);
        let ghost e1 = entries@;
        proof {
            assert(pending@.contains(idx)) by {
                assert(pending@[pos as int] == idx);
            }
            lemma_once_place(needs@, pending@, owner, e_start, entries@, backjumps as int, idx);
        }
        proof {
            let e1 = entries@;
            assert forall|b: i64, c: i64| #[trigger] classes_of(e1, b, c) == classes_of(e_start, b, c) + (if b == n.batch_id
                && c == n.course_id { placed as int } else { 0int }) by {
                lemma_classes_extend(e_start, e1, n.batch_id, n.course_id, b, c);
            }
            assert forall|j: int| 0 <= j < needs@.len() && #[trigger] first_of_pair(needs@, j) && !pending@.contains(j as usize)
                implies need_covered(e1, unscheduled@, owner, needs@, j) by {
                assert(classes_of(e1, needs@[j].batch_id, needs@[j].course_id) >= classes_of(e_start, needs@[j].batch_id, needs@[j].course_id));
                assert(unscheduled@.subrange(0, unscheduled@.len() as int) =~= unscheduled@);
                assert(owner.subrange(0, owner.len() as int) =~= owner);
                lemma_covered_grows(e_start, e1, unscheduled@, unscheduled@, owner, owner, needs@, j);
            }
            assert forall|k: int| 0 <= k < e1.len() implies exists|i: int| 0 <= i < needs@.len() && needs@[i].batch_id
                == #[trigger] e1[k].batch_id && needs@[i].course_id == e1[k].course_id by {
                if k < e_start.len() {
                    assert(e1[k] == e_start[k]);
                } else {
                    assert(needs@[idx as int].batch_id == e1[k].batch_id);
                }
            }
        }
        if placed >= n.hours {
            proof {
                lemma_once_done(needs@, pending@, pos as int, owner, entries@, backjumps as int);
            }
            pending.remove(pos);
            proof {
                let e1 = entries@;
                assert forall|j: int| 0 <= j < needs@.len() && #[trigger] first_of_pair(needs@, j) && !pending@.contains(j as usize)
                    implies need_covered(e1, unscheduled@, owner, needs@, j) by {
                    if j != idx {
                        if p0.contains(j as usize) {
                            assert(j as usize != p0[pos as int]);
                            lemma_remove_keeps(p0, pos as int, j as usize);
                        }
                    } else {
                        assert(classes_of(e1, n.batch_id, n.course_id) >= placed);
                    }
                }
                let s1 = (entries@, pending@, unscheduled@, backjumps as int);
                lemma_round_filled(*input, dv, needs@, s0, s1, pos as int, ci as int, bi as int, li as int, lid, cands@, used, stop, e1, 0, None);
                lemma_trace_push(*input, dv, needs@, tr, s1);
                lemma_picks_push(*input, dv, needs@, tr, picks, s1, pos as int);
                tr = tr.push(s1);
                picks = picks.push(pos as int);
            }
            continue;
        }
        let mut recovered = false;
        if backjumps < MAX_BACKJUMPS {
            match last_conflict(&entries, lid, n.batch_id) {
                Some(k) => {
                    let cb = entries[k].batch_id;
                    let cc = entries[k].course_id;
                    let ghost e1 = entries@;
                    let ghost pend_bj = pending@;
                    proof {
                        lemma_remove_entry(*input, dv, entries@, k as int);
                    }
                    entries.remove(k);
                    backjumps = backjumps + 1;
                    let ghost e2 = entries@;
                    proof {
                        assert(e2 == e1.remove(k as int));
                        assert forall|b: i64, c: i64| #[trigger] classes_of(e2, b, c) + (if cb == b && cc == c { 1int } else { 0int })
                            == classes_of(e1, b, c) by {
                            lemma_classes_remove(e1, k as int, b, c);
                        }
                        assert forall|m: int| 0 <= m < e2.len() implies exists|i: int| 0 <= i < needs@.len() && needs@[i].batch_id
                            == #[trigger] e2[m].batch_id && needs@[i].course_id == e2[m].course_id by {
                            if m < k {
                                assert(e2[m] == e1[m]);
                            } else {
                                assert(e2[m] == e1[m + 1]);
                            }
                        }
                        assert(exists|i: int| 0 <= i < needs@.len() && needs@[i].batch_id == #[trigger] e1[k as int].batch_id
                            && needs@[i].course_id == e1[k as int].course_id);
                    }
                    let opr = first_need_pos(&needs, cb, cc);
                    match opr {
                        Some(op) => {
                            if !pending_has(&pending, op) {
                                pending.push(op);
                            }
                            proof {
                                assert(pending@.contains(op)) by {
                                    if !p0.contains(op) {
                                        assert(pending@[pending@.len() - 1] == op);
                                    }
                                }
                                assert forall|j: int| 0 <= j < needs@.len() && #[trigger] first_of_pair(needs@, j) && !pending@.contains(j as usize)
                                    implies need_covered(e2, unscheduled@, owner, needs@, j) by {
                                    if p0.contains(j as usize) {
                                        if pending@ != p0 {
                                            let w = choose|w: int| 0 <= w < p0.len() && p0[w] == j as usize;
                                            assert(pending@[w] == j as usize);
                                        }
                                    }
                                    assert(!p0.contains(j as usize));
                                    if needs@[j].batch_id == cb && needs@[j].course_id == cc {
                                        if j < op {
                                        } else if op < j {
                                            assert(needs@[op as int].batch_id == needs@[j].batch_id);
                                        }
                                        assert(j == op);
                                    }
                                    assert(need_covered(e1, unscheduled@, owner, needs@, j));
                                    assert(unscheduled@.subrange(0, unscheduled@.len() as int) =~= unscheduled@);
                                    assert(owner.subrange(0, owner.len() as int) =~= owner);
                                    lemma_covered_grows(e1, e2, unscheduled@, unscheduled@, owner, owner, needs@, j);
                                }
                            }
                        },
                        None => {
                            proof {
                                assert(false);
                            }
                        },
                    }
                    proof {
                        lemma_once_backjump(needs@, pend_bj, owner, e1, (backjumps - 1) as int, k as int, opr, pending@);
                        let s1 = (entries@, pending@, unscheduled@, backjumps as int);
                        assert(last_conflict_at(e1, lid, n.batch_id, k as int));
                        assert(first_pair(needs@, cb, cc, opr));
                        lemma_round_filled(*input, dv, needs@, s0, s1, pos as int, ci as int, bi as int, li as int, lid, cands@, used, stop, e1, k as int, opr);
                        lemma_trace_push(*input, dv, needs@, tr, s1);
                        lemma_picks_push(*input, dv, needs@, tr, picks, s1, pos as int);
                        tr = tr.push(s1);
                        picks = picks.push(pos as int);
                    }
                    recovered = true;
                },
                None => {},
            }
        }
        if !recovered {
            let ghost u1 = unscheduled@;
            let ghost o1 = owner;
            proof {
                if backjumps < MAX_BACKJUMPS {
                    assert forall|m: int| 0 <= m < entries@.len() implies !(#[trigger] entries@[m].batch_id == n.batch_id
                        && entries@[m].course_id == n.course_id) by {
                        assert(!conflicts(entries@[m], lid, n.batch_id));
                    }
                }
                lemma_once_report(needs@, pending@, pos as int, owner, entries@, backjumps as int);
            }
            if placed < n.hours {
                let reason = partial_text(placed, n.hours);
                let u = report(batch, course, n.hours - placed, reason);
                assert(item_explains(*input, needs@[idx as int], u));
                unscheduled.push(u);
                proof {
                    owner = owner.push(idx as int);
                }
            }
            pending.remove(pos);
            proof {
                let e1 = entries@;
                assert(unscheduled@.subrange(0, u1.len() as int) =~= u1);
                assert(owner.subrange(0, o1.len() as int) =~= o1);
                assert forall|u: int| #![trigger owner[u]] 0 <= u < unscheduled@.len() implies 0 <= owner[u] < needs@.len()
                    && item_explains(*input, needs@[owner[u]], unscheduled@[u]) by {
                    if u < u1.len() {
                        assert(unscheduled@[u] == u1[u] && owner[u] == o1[u]);
                    }
                }
                assert forall|j: int| 0 <= j < needs@.len() && #[trigger] first_of_pair(needs@, j) && !pending@.contains(j as usize)
                    implies need_covered(e1, unscheduled@, owner, needs@, j) by {
                    if j != idx {
                        if p0.contains(j as usize) {
                            assert(j as usize != p0[pos as int]);
                            lemma_remove_keeps(p0, pos as int, j as usize);
                        }
                        lemma_covered_grows(e1, e1, u1, unscheduled@, o1, owner, needs@, j);
                    } else {
                        let last = (unscheduled@.len() - 1) as int;
                        assert(owner[last] == j);
                        assert(unscheduled@[last].hours_needed == n.hours - placed);
                        assert(classes_of(e1, n.batch_id, n.course_id) >= placed);
                    }
                }
                let s1 = (entries@, pending@, unscheduled@, backjumps as int);
                lemma_round_filled(*input, dv, needs@, s0, s1, pos as int, ci as int, bi as int, li as int, lid, cands@, used, stop, e1, 0, None);
                lemma_shortfall_true(*input, dv, n, lid, e_start, remaining@, cands@, e1, used, stop);
                assert(csp_report_justified(*input, dv, needs@, s0, s1, pos as int));
                lemma_trace_push(*input, dv, needs@, tr, s1);
                lemma_picks_push(*input, dv, needs@, tr, picks, s1, pos as int);
                tr = tr.push(s1);
                picks = picks.push(pos as int);
            }
        }
    }
    proof {
        assert forall|j: int| 0 <= j < needs@.len() && #[trigger] first_of_pair(needs@, j) implies need_covered(
            entries@,
            unscheduled@,
            owner,
            needs@,
            j,
        ) by {
            assert(!pending@.contains(j as usize));
        }
        assert forall|j: int| 0 <= j < unscheduled@.len() implies explained(*input, needs@, #[trigger] unscheduled@[j]) by {
            assert(0 <= owner[j] < needs@.len() && item_explains(*input, needs@[owner[j]], unscheduled@[j]));
        }
        assert(csp_reports_cover(*input, needs@, entries@, unscheduled@, owner));
    }
    let r = ScheduleResult { entries, unscheduled };
    assert(csp_reports_cover(*input, needs_of(*input), r.entries@, r.unscheduled@, owner));
    reveal(once_inv);
    assert(csp_reports_cover(*input, needs_of(*input), r.entries@, r.unscheduled@, owner) && (distinct_pairs(needs_of(*input))
        ==> forall|u1: int, u2: int| 0 <= u1 < u2 < owner.len() ==> #[trigger] owner[u1] != #[trigger] owner[u2]));
    assert(csp_run(*input, dv, needs_of(*input), tr, picks, r.entries@, r.unscheduled@));
    r
}

/// Lecturers' time of day counts in the constraint-satisfaction
/// scheduler: in a need's candidate list, a candidate holding as many of
/// the batch's classes that day as a later one never has a larger
/// class-type penalty plus lecturer time-of-day penalty. So, load being
/// equal, an open afternoon slot of a lecturer who asks for the afternoon
/// is tried before every morning slot of that day.
pub proof fn law_csp_time_of_day(
    input: SchedulerInput,
    days: Seq<Seq<char>>,
    es: Seq<PlacedEntry>,
    need: Need,
    c: Course,
    l: Lecturer,
    lid: i64,
    b: Batch,
    remaining: Seq<Need>,
    v: Seq<CspChoice>,
    i: int,
    j: int,
)
    requires
        csp_cands_ok(input, days, es, need, c, l, lid, b, remaining, v),
        0 <= i < j < v.len(),
        batch_day_count(es, need.batch_id, days[v[i].day as int]) == batch_day_count(es, need.batch_id, days[v[j].day as int]),
    ensures
        slot_penalty_spec(c.class_type@, v[i].slot) + preferred_penalty_spec(opt_text(l.preferred_slots_json), days[v[i].day as int], v[i].slot)
            <= slot_penalty_spec(c.class_type@, v[j].slot) + preferred_penalty_spec(
            opt_text(l.preferred_slots_json),
            days[v[j].day as int],
            v[j].slot,
        ),
{
    assert(csp_le(v[i], v[j]));
    assert(csp_key_ok(input, days, es, need, c, l, lid, remaining, v[i]));
    assert(csp_key_ok(input, days, es, need, c, l, lid, remaining, v[j]));
}

/// The constraint-satisfaction scheduler spreads a batch across the week:
/// a need's candidates come in order of how many of the batch's classes
/// their day already holds, fewest first.
pub proof fn law_csp_spreads_batch(
    input: SchedulerInput,
    days: Seq<Seq<char>>,
    es: Seq<PlacedEntry>,
    need: Need,
    c: Course,
    l: Lecturer,
    lid: i64,
    b: Batch,
    remaining: Seq<Need>,
    v: Seq<CspChoice>,
    i: int,
    j: int,
)
    requires
        csp_cands_ok(input, days, es, need, c, l, lid, b, remaining, v),
        0 <= i < j < v.len(),
    ensures
        batch_day_count(es, need.batch_id, days[v[i].day as int]) <= batch_day_count(es, need.batch_id, days[v[j].day as int]),
{
    assert(csp_le(v[i], v[j]));
    assert(csp_key_ok(input, days, es, need, c, l, lid, remaining, v[i]));
    assert(csp_key_ok(input, days, es, need, c, l, lid, remaining, v[j]));
}

} // verus!
