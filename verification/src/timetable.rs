//! The model shared by both scheduling algorithms: the scheduler's input
//! and output, lookups into the input, the booking state derived from the
//! entries placed so far, and what it means for a timetable to respect
//! the hard constraints.

use vstd::prelude::*;
use crate::models::{Batch, Course, Lecturer, Room, UnscheduledItem, is_time_slot};
use crate::rules::{blacked_out_spec, opt_text, exceeds_run, sort_slots, insert_sorted, run_steps, adjacent_slots};
use crate::text::{list_has, list_contains};

verus! {

/// What the scheduler works from.
pub struct SchedulerInput {
    pub courses: Vec<Course>,
    pub lecturers: Vec<Lecturer>,
    pub rooms: Vec<Room>,
    pub batches: Vec<Batch>,
    /// Days the organization schedules on, in column order; Mon–Fri when
    /// empty.
    pub working_days: Vec<String>,
}

/// One class placed in the timetable.
#[derive(Debug)]
pub struct PlacedEntry {
    pub course_id: i64,
    pub lecturer_id: i64,
    pub room_id: i64,
    pub batch_id: i64,
    pub day: String,
    pub time_slot: i64,
    pub class_type: String,
    /// 0 = every week, 1 = odd weeks, 2 = even weeks.
    pub week_parity: i64,
}

/// The placed classes and what could not be placed.
pub struct ScheduleResult {
    pub entries: Vec<PlacedEntry>,
    pub unscheduled: Vec<UnscheduledItem>,
}

// ── Lookups ──────────────────────────────────────────────────────────────────

/// Index of the last course with this id (a map built from the list keeps
/// the last one), or -1.
pub open spec fn course_index(cs: Seq<Course>, id: i64) -> int
    decreases cs.len(),
{
    if cs.len() == 0 {
        -1
    } else if cs.last().id == id {
        cs.len() - 1
    } else {
        course_index(cs.drop_last(), id)
    }
}

/// Index of the last lecturer with this id, or -1.
pub open spec fn lecturer_index(ls: Seq<Lecturer>, id: i64) -> int
    decreases ls.len(),
{
    if ls.len() == 0 {
        -1
    } else if ls.last().id == id {
        ls.len() - 1
    } else {
        lecturer_index(ls.drop_last(), id)
    }
}

/// Index of the first batch with this id, or -1.
pub open spec fn batch_index(bs: Seq<Batch>, id: i64) -> int
    decreases bs.len(),
{
    if bs.len() == 0 {
        -1
    } else if bs[0].id == id {
        0
    } else if batch_index(bs.drop_first(), id) < 0 {
        -1
    } else {
        batch_index(bs.drop_first(), id) + 1
    }
}

proof fn lemma_course_index(cs: Seq<Course>, id: i64)
    ensures
        -1 <= course_index(cs, id) < cs.len(),
        course_index(cs, id) >= 0 ==> cs[course_index(cs, id)].id == id,
        forall|j: int| course_index(cs, id) < j < cs.len() ==> #[trigger] cs[j].id != id,
    decreases cs.len(),
{
    if cs.len() > 0 {
        lemma_course_index(cs.drop_last(), id);
        assert forall|j: int| course_index(cs, id) < j < cs.len() implies #[trigger] cs[j].id != id by {
            if j < cs.len() - 1 {
                assert(cs[j] == cs.drop_last()[j]);
            }
        }
    }
}

proof fn lemma_lecturer_index(ls: Seq<Lecturer>, id: i64)
    ensures
        -1 <= lecturer_index(ls, id) < ls.len(),
        lecturer_index(ls, id) >= 0 ==> ls[lecturer_index(ls, id)].id == id,
        forall|j: int| lecturer_index(ls, id) < j < ls.len() ==> #[trigger] ls[j].id != id,
    decreases ls.len(),
{
    if ls.len() > 0 {
        lemma_lecturer_index(ls.drop_last(), id);
        assert forall|j: int| lecturer_index(ls, id) < j < ls.len() implies #[trigger] ls[j].id != id by {
            if j < ls.len() - 1 {
                assert(ls[j] == ls.drop_last()[j]);
            }
        }
    }
}

pub(crate) proof fn lemma_batch_index(bs: Seq<Batch>, id: i64)
    ensures
        -1 <= batch_index(bs, id) < bs.len(),
        batch_index(bs, id) >= 0 ==> bs[batch_index(bs, id)].id == id,
        forall|j: int|
            0 <= j < bs.len() && (batch_index(bs, id) < 0 || j < batch_index(bs, id)) ==> #[trigger] bs[j].id != id,
    decreases bs.len(),
{
    if bs.len() > 0 {
        lemma_batch_index(bs.drop_first(), id);
        assert forall|j: int|
            0 <= j < bs.len() && (batch_index(bs, id) < 0 || j < batch_index(bs, id)) implies #[trigger] bs[j].id != id by {
            if j > 0 {
                assert(bs[j] == bs.drop_first()[j - 1]);
            }
        }
    }
}

/// The last course with this id.
pub fn find_course(cs: &Vec<Course>, id: i64) -> (r: Option<usize>)
    ensures
        match r {
            Some(i) => i < cs@.len() && i as int == course_index(cs@, id) && cs@[i as int].id == id,
            None => course_index(cs@, id) < 0,
        },
{
    proof {
        lemma_course_index(cs@, id);
    }
    let mut i = cs.len();
    while i > 0
        invariant
            i <= cs@.len(),
            forall|j: int| i <= j < cs@.len() ==> #[trigger] cs@[j].id != id,
        decreases i,
    {
        if cs[i - 1].id == id {
            proof {
                lemma_course_index(cs@, id);
            }
            return Some(i - 1);
        }
        i = i - 1;
    }
    None
}

/// The last lecturer with this id.
pub fn find_lecturer(ls: &Vec<Lecturer>, id: i64) -> (r: Option<usize>)
    ensures
        match r {
            Some(i) => i < ls@.len() && i as int == lecturer_index(ls@, id) && ls@[i as int].id == id,
            None => lecturer_index(ls@, id) < 0,
        },
{
    proof {
        lemma_lecturer_index(ls@, id);
    }
    let mut i = ls.len();
    while i > 0
        invariant
            i <= ls@.len(),
            forall|j: int| i <= j < ls@.len() ==> #[trigger] ls@[j].id != id,
        decreases i,
    {
        if ls[i - 1].id == id {
            proof {
                lemma_lecturer_index(ls@, id);
            }
            return Some(i - 1);
        }
        i = i - 1;
    }
    None
}

/// The first batch with this id.
pub fn find_batch(bs: &Vec<Batch>, id: i64) -> (r: Option<usize>)
    ensures
        match r {
            Some(i) => i < bs@.len() && i as int == batch_index(bs@, id) && bs@[i as int].id == id,
            None => batch_index(bs@, id) < 0,
        },
{
    proof {
        lemma_batch_index(bs@, id);
    }
    let mut i: usize = 0;
    while i < bs.len()
        invariant
            i <= bs@.len(),
            forall|j: int| 0 <= j < i ==> #[trigger] bs@[j].id != id,
        decreases bs@.len() - i,
    {
        if bs[i].id == id {
            proof {
                lemma_batch_index(bs@, id);
            }
            return Some(i);
        }
        i = i + 1;
    }
    None
}

// ── Working days ─────────────────────────────────────────────────────────────

/// The five weekdays scheduled when no working days are configured.
pub open spec fn default_days() -> Seq<Seq<char>> {
    seq!["Mon"@, "Tue"@, "Wed"@, "Thu"@, "Fri"@]
}

/// The days a timetable is built on.
pub open spec fn effective_days(working_days: Seq<Seq<char>>) -> Seq<Seq<char>> {
    if working_days.len() == 0 {
        default_days()
    } else {
        working_days
    }
}

/// The configured working days, or Mon–Fri when none are configured.
pub fn resolve_days(working_days: &Vec<String>) -> (days: Vec<String>)
    ensures
        days.deep_view() == effective_days(working_days.deep_view()),
{
    if working_days.len() == 0 {
        let mut d: Vec<String> = Vec::new();
        d.push(String::from_str("Mon"));
        d.push(String::from_str("Tue"));
        d.push(String::from_str("Wed"));
        d.push(String::from_str("Thu"));
        d.push(String::from_str("Fri"));
        assert(d.deep_view() =~= default_days());
        d
    } else {
        let mut d: Vec<String> = Vec::new();
        let mut i: usize = 0;
        while i < working_days.len()
            invariant
                i <= working_days@.len(),
                d.deep_view() == working_days.deep_view().subrange(0, i as int),
            decreases working_days@.len() - i,
        {
            let ghost before = d.deep_view();
            let w = working_days[i].clone();
            assert(w@ == working_days.deep_view()[i as int]);
            d.push(w);
            assert(d.deep_view() =~= before.push(w@));
            i = i + 1;
            assert(d.deep_view() =~= working_days.deep_view().subrange(0, i as int));
        }
        assert(working_days.deep_view().subrange(0, i as int) =~= working_days.deep_view());
        d
    }
}

// ── Booking state derived from the placed entries ────────────────────────────

/// Some entry holds `(day, slot)` for the room.
pub open spec fn room_busy(es: Seq<PlacedEntry>, room_id: i64, day: Seq<char>, slot: i64) -> bool {
    exists|k: int| #![trigger es[k]] 0 <= k < es.len() && es[k].room_id == room_id && es[k].day@ == day && es[k].time_slot == slot
}

/// Some entry holds `(day, slot)` for the lecturer.
pub open spec fn lecturer_busy(es: Seq<PlacedEntry>, lecturer_id: i64, day: Seq<char>, slot: i64) -> bool {
    exists|k: int| #![trigger es[k]] 0 <= k < es.len() && es[k].lecturer_id == lecturer_id && es[k].day@ == day && es[k].time_slot == slot
}

/// Some entry holds `(day, slot)` for the batch.
pub open spec fn batch_busy(es: Seq<PlacedEntry>, batch_id: i64, day: Seq<char>, slot: i64) -> bool {
    exists|k: int| #![trigger es[k]] 0 <= k < es.len() && es[k].batch_id == batch_id && es[k].day@ == day && es[k].time_slot == slot
}

/// Classes a lecturer teaches on a day.
pub open spec fn day_load(es: Seq<PlacedEntry>, lecturer_id: i64, day: Seq<char>) -> nat
    decreases es.len(),
{
    if es.len() == 0 {
        0
    } else {
        day_load(es.drop_last(), lecturer_id, day) + (if es.last().lecturer_id == lecturer_id
            && es.last().day@ == day { 1nat } else { 0nat })
    }
}

/// Classes a lecturer teaches in the week.
pub open spec fn week_load(es: Seq<PlacedEntry>, lecturer_id: i64) -> nat
    decreases es.len(),
{
    if es.len() == 0 {
        0
    } else {
        week_load(es.drop_last(), lecturer_id) + (if es.last().lecturer_id == lecturer_id { 1nat } else { 0nat })
    }
}

/// Classes a batch has on a day.
pub open spec fn batch_day_count(es: Seq<PlacedEntry>, batch_id: i64, day: Seq<char>) -> nat
    decreases es.len(),
{
    if es.len() == 0 {
        0
    } else {
        batch_day_count(es.drop_last(), batch_id, day) + (if es.last().batch_id == batch_id
            && es.last().day@ == day { 1nat } else { 0nat })
    }
}

/// The slots a lecturer teaches on a day, in placement order.
pub open spec fn day_slots(es: Seq<PlacedEntry>, lecturer_id: i64, day: Seq<char>) -> Seq<i64>
    decreases es.len(),
{
    if es.len() == 0 {
        Seq::<i64>::empty()
    } else if es.last().lecturer_id == lecturer_id && es.last().day@ == day {
        day_slots(es.drop_last(), lecturer_id, day).push(es.last().time_slot)
    } else {
        day_slots(es.drop_last(), lecturer_id, day)
    }
}


// ── Reading the booking state ────────────────────────────────────────────────

/// Whether the room holds a class at `(day, slot)`.
pub fn room_is_busy(es: &Vec<PlacedEntry>, room_id: i64, day: &String, slot: i64) -> (b: bool)
    ensures
        b == room_busy(es@, room_id, day@, slot),
{
    let mut k: usize = 0;
    while k < es.len()
        invariant
            k <= es@.len(),
            forall|j: int| 0 <= j < k ==> !(#[trigger] es@[j].room_id == room_id && es@[j].day@ == day@ && es@[j].time_slot == slot),
        decreases es@.len() - k,
    {
        if es[k].room_id == room_id && es[k].day == *day && es[k].time_slot == slot {
            return true;
        }
        k = k + 1;
    }
    false
}

/// Whether the lecturer teaches at `(day, slot)`.
pub fn lecturer_is_busy(es: &Vec<PlacedEntry>, lecturer_id: i64, day: &String, slot: i64) -> (b: bool)
    ensures
        b == lecturer_busy(es@, lecturer_id, day@, slot),
{
    let mut k: usize = 0;
    while k < es.len()
        invariant
            k <= es@.len(),
            forall|j: int| 0 <= j < k ==> !(#[trigger] es@[j].lecturer_id == lecturer_id && es@[j].day@ == day@ && es@[j].time_slot == slot),
        decreases es@.len() - k,
    {
        if es[k].lecturer_id == lecturer_id && es[k].day == *day && es[k].time_slot == slot {
            return true;
        }
        k = k + 1;
    }
    false
}

/// Whether the batch has a class at `(day, slot)`.
pub fn batch_is_busy(es: &Vec<PlacedEntry>, batch_id: i64, day: &String, slot: i64) -> (b: bool)
    ensures
        b == batch_busy(es@, batch_id, day@, slot),
{
    let mut k: usize = 0;
    while k < es.len()
        invariant
            k <= es@.len(),
            forall|j: int| 0 <= j < k ==> !(#[trigger] es@[j].batch_id == batch_id && es@[j].day@ == day@ && es@[j].time_slot == slot),
        decreases es@.len() - k,
    {
        if es[k].batch_id == batch_id && es[k].day == *day && es[k].time_slot == slot {
            return true;
        }
        k = k + 1;
    }
    false
}

/// Classes the lecturer teaches on the day.
pub fn count_day_load(es: &Vec<PlacedEntry>, lecturer_id: i64, day: &String) -> (n: usize)
    ensures
        n == day_load(es@, lecturer_id, day@),
{
    let mut n: usize = 0;
    let mut k: usize = 0;
    assert(es@.subrange(0, 0) =~= Seq::<PlacedEntry>::empty());
    while k < es.len()
        invariant
            k <= es@.len(),
            n <= k,
            n == day_load(es@.subrange(0, k as int), lecturer_id, day@),
        decreases es@.len() - k,
    {
        assert(es@.subrange(0, k + 1).drop_last() =~= es@.subrange(0, k as int));
        if es[k].lecturer_id == lecturer_id && es[k].day == *day {
            n = n + 1;
        }
        k = k + 1;
    }
    assert(es@.subrange(0, k as int) =~= es@);
    n
}

/// Classes the lecturer teaches in the week.
pub fn count_week_load(es: &Vec<PlacedEntry>, lecturer_id: i64) -> (n: usize)
    ensures
        n == week_load(es@, lecturer_id),
{
    let mut n: usize = 0;
    let mut k: usize = 0;
    assert(es@.subrange(0, 0) =~= Seq::<PlacedEntry>::empty());
    while k < es.len()
        invariant
            k <= es@.len(),
            n <= k,
            n == week_load(es@.subrange(0, k as int), lecturer_id),
        decreases es@.len() - k,
    {
        assert(es@.subrange(0, k + 1).drop_last() =~= es@.subrange(0, k as int));
        if es[k].lecturer_id == lecturer_id {
            n = n + 1;
        }
        k = k + 1;
    }
    assert(es@.subrange(0, k as int) =~= es@);
    n
}

/// Classes the batch has on the day.
pub fn count_batch_day(es: &Vec<PlacedEntry>, batch_id: i64, day: &String) -> (n: usize)
    ensures
        n == batch_day_count(es@, batch_id, day@),
{
    let mut n: usize = 0;
    let mut k: usize = 0;
    assert(es@.subrange(0, 0) =~= Seq::<PlacedEntry>::empty());
    while k < es.len()
        invariant
            k <= es@.len(),
            n <= k,
            n == batch_day_count(es@.subrange(0, k as int), batch_id, day@),
        decreases es@.len() - k,
    {
        assert(es@.subrange(0, k + 1).drop_last() =~= es@.subrange(0, k as int));
        if es[k].batch_id == batch_id && es[k].day == *day {
            n = n + 1;
        }
        k = k + 1;
    }
    assert(es@.subrange(0, k as int) =~= es@);
    n
}

/// The slots the lecturer teaches on the day, in placement order.
pub fn collect_day_slots(es: &Vec<PlacedEntry>, lecturer_id: i64, day: &String) -> (v: Vec<i64>)
    ensures
        v@ == day_slots(es@, lecturer_id, day@),
{
    let mut v: Vec<i64> = Vec::new();
    let mut k: usize = 0;
    assert(es@.subrange(0, 0) =~= Seq::<PlacedEntry>::empty());
    while k < es.len()
        invariant
            k <= es@.len(),
            v@ == day_slots(es@.subrange(0, k as int), lecturer_id, day@),
        decreases es@.len() - k,
    {
        assert(es@.subrange(0, k + 1).drop_last() =~= es@.subrange(0, k as int));
        if es[k].lecturer_id == lecturer_id && es[k].day == *day {
            v.push(es[k].time_slot);
        }
        k = k + 1;
    }
    assert(es@.subrange(0, k as int) =~= es@);
    v
}

/// The first room that fits the course, the batch and the day and is free
/// at `(day, slot)`.
pub fn find_room(
    rooms: &Vec<Room>,
    course: &Course,
    batch: &Batch,
    day: &String,
    slot: i64,
    es: &Vec<PlacedEntry>,
) -> (r: Option<usize>)
    ensures
        match r {
            Some(k) => k < rooms@.len() && room_fits(rooms@[k as int], *course, *batch, day@)
                && !room_busy(es@, rooms@[k as int].id, day@, slot)
                && forall|j: int| 0 <= j < k ==> !(room_fits(#[trigger] rooms@[j], *course, *batch, day@)
                    && !room_busy(es@, rooms@[j].id, day@, slot)),
            None => forall|j: int| 0 <= j < rooms@.len() ==> !(room_fits(#[trigger] rooms@[j], *course, *batch, day@)
                && !room_busy(es@, rooms@[j].id, day@, slot)),
        },
{
    let mut k: usize = 0;
    while k < rooms.len()
        invariant
            k <= rooms@.len(),
            forall|j: int| 0 <= j < k ==> !(room_fits(#[trigger] rooms@[j], *course, *batch, day@)
                && !room_busy(es@, rooms@[j].id, day@, slot)),
        decreases rooms@.len() - k,
    {
        let r = &rooms[k];
        if r.room_type == course.room_type && r.capacity >= batch.size
            && list_contains(r.available_days.as_str(), day.as_str())
            && !room_is_busy(es, r.id, day, slot) {
            return Some(k);
        }
        k = k + 1;
    }
    None
}

// ── Hard constraints ─────────────────────────────────────────────────────────

/// A room can take a class of the course for the batch on the day: same
/// room type, enough seats, open that day.
pub open spec fn room_fits(r: Room, c: Course, b: Batch, day: Seq<char>) -> bool {
    &&& r.room_type@ == c.room_type@
    &&& r.capacity >= b.size
    &&& list_has(r.available_days@, day)
}

/// Week parity of a course's classes: 1 (odd weeks) for biweekly courses,
/// 0 (every week) otherwise.
pub open spec fn parity_of(c: Course) -> i64 {
    if c.frequency@ == "biweekly"@ { 1 } else { 0 }
}

/// An entry fits the input on its own: its course, lecturer and batch
/// exist; the course is taught by that lecturer and taken by a batch with
/// that id; the day is a working day and the lecturer's available day, not
/// blacked out; the slot is one of the eight; the room fits.
pub open spec fn entry_ok(input: SchedulerInput, days: Seq<Seq<char>>, e: PlacedEntry) -> bool {
    let cs = input.courses@;
    let ls = input.lecturers@;
    let rs = input.rooms@;
    let bs = input.batches@;
    let ci = course_index(cs, e.course_id);
    let li = lecturer_index(ls, e.lecturer_id);
    let bi = batch_index(bs, e.batch_id);
    &&& 0 <= ci && 0 <= li && 0 <= bi
    &&& cs[ci].lecturer_id == Some(e.lecturer_id)
    &&& e.class_type@ == cs[ci].class_type@
    &&& e.week_parity == parity_of(cs[ci])
    &&& exists|b: int| 0 <= b < bs.len() && #[trigger] bs[b].id == e.batch_id && bs[b].course_ids@.contains(e.course_id)
    &&& days.contains(e.day@)
    &&& is_time_slot(e.time_slot)
    &&& list_has(ls[li].available_days@, e.day@)
    &&& !blacked_out_spec(opt_text(ls[li].blackout_json), e.day@, e.time_slot)
    &&& exists|r: int| 0 <= r < rs.len() && #[trigger] rs[r].id == e.room_id && room_fits(rs[r], cs[ci], bs[bi], e.day@)
}

/// No room, lecturer or batch holds two classes at the same (day, slot).
pub open spec fn no_double_booking(es: Seq<PlacedEntry>) -> bool {
    forall|i: int, j: int|
        #![trigger es[i], es[j]]
        0 <= i < es.len() && 0 <= j < es.len() && i != j && es[i].day@ == es[j].day@ && es[i].time_slot
            == es[j].time_slot ==> es[i].room_id != es[j].room_id && es[i].lecturer_id != es[j].lecturer_id
            && es[i].batch_id != es[j].batch_id
}

/// Every lecturer stays within the daily and the weekly hour limit.
pub open spec fn within_load_limits(input: SchedulerInput, es: Seq<PlacedEntry>) -> bool {
    forall|i: int|
        #![trigger es[i]]
        0 <= i < es.len() ==> {
            let l = input.lecturers@[lecturer_index(input.lecturers@, es[i].lecturer_id)];
            &&& day_load(es, es[i].lecturer_id, es[i].day@) <= l.max_hours_per_day
            &&& week_load(es, es[i].lecturer_id) <= l.max_hours_per_week
        }
}

/// The slot list holds every slot from `a` to `a + max`.
pub open spec fn covers_run(slots: Seq<i64>, a: int, max: int) -> bool {
    forall|j: int| 0 <= j <= max ==> #[trigger] slots.contains((a + j) as i64) && a + j >= i64::MIN && a + j <= i64::MAX
}

/// Slots `a` to `a + max` include both sides of the lunch break.
pub open spec fn crosses_lunch(a: int, max: int) -> bool {
    a <= 3 && 4 <= a + max
}

/// No lecturer teaches more than `max_consecutive_hours` classes in a row
/// on a day (where that limit is positive); a run broken by lunch is two
/// runs.
pub open spec fn runs_within_limit(input: SchedulerInput, es: Seq<PlacedEntry>) -> bool {
    forall|i: int, a: int|
        #![trigger es[i], covers_run(day_slots(es, es[i].lecturer_id, es[i].day@), a, input.lecturers@[lecturer_index(input.lecturers@, es[i].lecturer_id)].max_consecutive_hours as int)]
        0 <= i < es.len() && input.lecturers@[lecturer_index(input.lecturers@, es[i].lecturer_id)].max_consecutive_hours > 0
            && covers_run(
            day_slots(es, es[i].lecturer_id, es[i].day@),
            a,
            input.lecturers@[lecturer_index(input.lecturers@, es[i].lecturer_id)].max_consecutive_hours as int,
        ) ==> crosses_lunch(a, input.lecturers@[lecturer_index(input.lecturers@, es[i].lecturer_id)].max_consecutive_hours as int)
}

/// An entry passes every check made before it is placed: it fits the
/// input, its room, lecturer and batch are free at its (day, slot), the
/// lecturer is under the daily and the weekly limit, and the slot makes no
/// run longer than the lecturer's limit.
pub open spec fn can_place(input: SchedulerInput, days: Seq<Seq<char>>, es: Seq<PlacedEntry>, e: PlacedEntry) -> bool {
    let l = input.lecturers@[lecturer_index(input.lecturers@, e.lecturer_id)];
    &&& entry_ok(input, days, e)
    &&& !room_busy(es, e.room_id, e.day@, e.time_slot)
    &&& !lecturer_busy(es, e.lecturer_id, e.day@, e.time_slot)
    &&& !batch_busy(es, e.batch_id, e.day@, e.time_slot)
    &&& day_load(es, e.lecturer_id, e.day@) < l.max_hours_per_day
    &&& week_load(es, e.lecturer_id) < l.max_hours_per_week
    &&& !exceeds_run(sort_slots(day_slots(es, e.lecturer_id, e.day@).push(e.time_slot)), l.max_consecutive_hours)
}

/// A timetable respects every hard constraint.
pub open spec fn respects_constraints(input: SchedulerInput, days: Seq<Seq<char>>, es: Seq<PlacedEntry>) -> bool {
    &&& forall|i: int| 0 <= i < es.len() ==> entry_ok(input, days, #[trigger] es[i])
    &&& no_double_booking(es)
    &&& within_load_limits(input, es)
    &&& runs_within_limit(input, es)
}


// ── Facts about sorted slot lists ────────────────────────────────────────────

/// Ascending order.
pub open spec fn ascending(s: Seq<i64>) -> bool {
    forall|i: int, j: int| 0 <= i <= j < s.len() ==> #[trigger] s[i] <= #[trigger] s[j]
}

/// No value occurs twice.
pub open spec fn distinct_slots(s: Seq<i64>) -> bool {
    forall|i: int, j: int| 0 <= i < s.len() && 0 <= j < s.len() && i != j ==> #[trigger] s[i] != #[trigger] s[j]
}

proof fn lemma_insert_sorted(s: Seq<i64>, x: i64)
    ensures
        insert_sorted(s, x).len() == s.len() + 1,
        forall|v: i64| #[trigger] insert_sorted(s, x).contains(v) <==> (s.contains(v) || v == x),
        ascending(s) ==> ascending(insert_sorted(s, x)),
        distinct_slots(s) && !s.contains(x) ==> distinct_slots(insert_sorted(s, x)),
    decreases s.len(),
{
    let r = insert_sorted(s, x);
    if s.len() == 0 {
        assert forall|v: i64| #[trigger] r.contains(v) <==> (s.contains(v) || v == x) by {
            if r.contains(v) {
                let k = choose|k: int| 0 <= k < r.len() && r[k] == v;
                assert(k == 0);
            }
            if v == x {
                assert(r[0] == x);
            }
        }
    } else if x <= s[0] {
        assert forall|v: i64| #[trigger] r.contains(v) <==> (s.contains(v) || v == x) by {
            if r.contains(v) {
                let k = choose|k: int| 0 <= k < r.len() && r[k] == v;
                if k > 0 {
                    assert(s[k - 1] == v);
                }
            }
            if s.contains(v) {
                let k = choose|k: int| 0 <= k < s.len() && s[k] == v;
                assert(r[k + 1] == v);
            }
            if v == x {
                assert(r[0] == x);
            }
        }
        if ascending(s) {
            assert forall|i: int, j: int| 0 <= i <= j < r.len() implies #[trigger] r[i] <= #[trigger] r[j] by {
                if i == 0 {
                    if j > 0 {
                        assert(s[0] <= s[j - 1]);
                    }
                } else {
                    assert(r[i] == s[i - 1] && r[j] == s[j - 1]);
                }
            }
        }
        if distinct_slots(s) && !s.contains(x) {
            assert forall|i: int, j: int| 0 <= i < r.len() && 0 <= j < r.len() && i != j implies #[trigger] r[i] != #[trigger] r[j] by {
                if i == 0 {
                    assert(r[j] == s[j - 1]);
                } else if j == 0 {
                    assert(r[i] == s[i - 1]);
                } else {
                    assert(r[i] == s[i - 1] && r[j] == s[j - 1]);
                }
            }
        }
    } else {
        let t = s.drop_first();
        let rt = insert_sorted(t, x);
        lemma_insert_sorted(t, x);
        assert(r == seq![s[0]] + rt);
        assert forall|v: i64| #[trigger] r.contains(v) <==> (s.contains(v) || v == x) by {
            if r.contains(v) {
                let k = choose|k: int| 0 <= k < r.len() && r[k] == v;
                if k == 0 {
                    assert(s[0] == v);
                } else {
                    assert(rt[k - 1] == v);
                    assert(rt.contains(v));
                    if t.contains(v) {
                        let m = choose|m: int| 0 <= m < t.len() && t[m] == v;
                        assert(s[m + 1] == v);
                    }
                }
            }
            if s.contains(v) {
                let k = choose|k: int| 0 <= k < s.len() && s[k] == v;
                if k == 0 {
                    assert(r[0] == v);
                } else {
                    assert(t[k - 1] == v);
                    assert(t.contains(v));
                    assert(rt.contains(v));
                    let m = choose|m: int| 0 <= m < rt.len() && rt[m] == v;
                    assert(r[m + 1] == v);
                }
            }
            if v == x {
                assert(rt.contains(x));
                let m = choose|m: int| 0 <= m < rt.len() && rt[m] == x;
                assert(r[m + 1] == x);
            }
        }
        if ascending(s) {
            assert forall|i: int, j: int| 0 <= i <= j < t.len() implies #[trigger] t[i] <= #[trigger] t[j] by {
                assert(s[i + 1] <= s[j + 1]);
            }
            assert forall|i: int, j: int| 0 <= i <= j < r.len() implies #[trigger] r[i] <= #[trigger] r[j] by {
                if i == 0 {
                    if j > 0 {
                        assert(rt.contains(rt[j - 1]));
                        if t.contains(rt[j - 1]) {
                            let m = choose|m: int| 0 <= m < t.len() && t[m] == rt[j - 1];
                            assert(s[0] <= s[m + 1]);
                        }
                    }
                } else {
                    assert(r[i] == rt[i - 1] && r[j] == rt[j - 1]);
                }
            }
        }
        if distinct_slots(s) && !s.contains(x) {
            assert forall|i: int, j: int| 0 <= i < t.len() && 0 <= j < t.len() && i != j implies #[trigger] t[i] != #[trigger] t[j] by {
                assert(s[i + 1] != s[j + 1]);
            }
            assert(!t.contains(x)) by {
                if t.contains(x) {
                    let m = choose|m: int| 0 <= m < t.len() && t[m] == x;
                    assert(s[m + 1] == x);
                }
            }
            assert forall|i: int, j: int| 0 <= i < r.len() && 0 <= j < r.len() && i != j implies #[trigger] r[i] != #[trigger] r[j] by {
                if i == 0 || j == 0 {
                    let k = if i == 0 { j } else { i };
                    assert(rt.contains(rt[k - 1]));
                    if rt[k - 1] == x {
                        assert(s[0] != x);
                    } else {
                        assert(t.contains(rt[k - 1]));
                        let m = choose|m: int| 0 <= m < t.len() && t[m] == rt[k - 1];
                        assert(s[0] != s[m + 1]);
                    }
                } else {
                    assert(r[i] == rt[i - 1] && r[j] == rt[j - 1]);
                }
            }
        }
    }
}

proof fn lemma_sort_slots(s: Seq<i64>)
    ensures
        sort_slots(s).len() == s.len(),
        forall|v: i64| #[trigger] sort_slots(s).contains(v) <==> s.contains(v),
        ascending(sort_slots(s)),
        distinct_slots(s) ==> distinct_slots(sort_slots(s)),
    decreases s.len(),
{
    if s.len() > 0 {
        let d = s.drop_last();
        lemma_sort_slots(d);
        lemma_insert_sorted(sort_slots(d), s.last());
        assert forall|v: i64| #[trigger] sort_slots(s).contains(v) <==> s.contains(v) by {
            if s.contains(v) && v != s.last() {
                let k = choose|k: int| 0 <= k < s.len() && s[k] == v;
                assert(d[k] == v);
                assert(d.contains(v));
            }
            if d.contains(v) {
                let k = choose|k: int| 0 <= k < d.len() && d[k] == v;
                assert(s[k] == v);
            }
            assert(s[s.len() - 1] == s.last());
        }
        if distinct_slots(s) {
            assert forall|i: int, j: int| 0 <= i < d.len() && 0 <= j < d.len() && i != j implies #[trigger] d[i] != #[trigger] d[j] by {
                assert(s[i] != s[j]);
            }
            assert(!d.contains(s.last())) by {
                if d.contains(s.last()) {
                    let k = choose|k: int| 0 <= k < d.len() && d[k] == s.last();
                    assert(s[k] != s[s.len() - 1]);
                }
            }
        }
    } else {
        assert(s =~= Seq::<i64>::empty());
    }
}

proof fn lemma_run_chain(p: Seq<i64>, a: int, max: int, i0: int, j: int)
    requires
        ascending(p),
        distinct_slots(p),
        0 <= i0 < p.len(),
        p[i0] == a,
        0 <= j <= max,
        covers_run(p, a, max),
        !crosses_lunch(a, max),
    ensures
        i0 + j < p.len(),
        p[i0 + j] == a + j,
        run_steps(p, i0 + j) >= j,
    decreases j,
{
    if j > 0 {
        lemma_run_chain(p, a, max, i0, j - 1);
        let w = (a + j) as i64;
        assert(p.contains(w));
        let k = choose|k: int| 0 <= k < p.len() && p[k] == w;
        if k <= i0 + j - 1 {
            assert(p[k] <= p[i0 + j - 1]);
        }
        assert(p[i0 + j - 1] <= p[i0 + j]);
        assert(p[i0 + j - 1] != p[i0 + j]);
        assert(p[i0 + j] <= p[k]);
        assert(a + j - 1 != 3);
        assert(adjacent_slots(p[i0 + j - 1], p[i0 + j]));
    }
}

/// Distinct slots whose sorted list holds no run longer than `max` cover
/// a window of `max + 1` consecutive slots only across the lunch break.
proof fn lemma_no_long_run(t: Seq<i64>, max: i64, a: int)
    requires
        distinct_slots(t),
        max > 0,
        !exceeds_run(sort_slots(t), max),
        covers_run(t, a, max as int),
    ensures
        crosses_lunch(a, max as int),
{
    let p = sort_slots(t);
    lemma_sort_slots(t);
    if !crosses_lunch(a, max as int) {
        assert forall|j: int| 0 <= j <= max implies #[trigger] p.contains((a + j) as i64) && a + j >= i64::MIN && a + j <= i64::MAX by {
            assert(t.contains((a + j) as i64));
        }
        assert(p.contains((a + 0) as i64));
        let i0 = choose|k: int| 0 <= k < p.len() && p[k] == (a + 0) as i64;
        lemma_run_chain(p, a, max as int, i0, max as int);
        assert(run_steps(p, i0 + max) >= max);
    }
}

/// The run that ends at position `k` of a slot list holds, for `m` up to
/// its length, the slots `p[k] - m` to `p[k]` in order, and none of its
/// steps leaves slot 3 (the lunch break).
proof fn lemma_run_window(p: Seq<i64>, k: int, m: int)
    requires
        0 <= k < p.len(),
        0 <= m <= run_steps(p, k),
    ensures
        k - m >= 0,
        forall|i: int| k - m <= i <= k ==> #[trigger] p[i] == p[k] - (k - i),
        forall|i: int| k - m <= i < k ==> #[trigger] p[i] != 3,
    decreases m,
{
    if m > 0 {
        assert(0 < k && adjacent_slots(p[k - 1], p[k]));
        lemma_run_window(p, k - 1, m - 1);
    }
}

/// A long run stays long when slots are added: if the sorted slots of `t1`
/// hold a run longer than `max`, so do those of any distinct `t2` that
/// holds every slot of `t1`.
pub(crate) proof fn lemma_exceeds_run_grows(t1: Seq<i64>, t2: Seq<i64>, max: i64)
    requires
        distinct_slots(t2),
        forall|v: i64| #[trigger] t1.contains(v) ==> t2.contains(v),
        exceeds_run(sort_slots(t1), max),
    ensures
        exceeds_run(sort_slots(t2), max),
{
    let p = sort_slots(t1);
    lemma_sort_slots(t1);
    let k = choose|k: int| 0 <= k < p.len() && #[trigger] run_steps(p, k) >= max;
    lemma_run_window(p, k, max as int);
    let a = p[k] - max;
    assert forall|j: int| 0 <= j <= max implies #[trigger] t2.contains((a + j) as i64) && a + j >= i64::MIN && a + j <= i64::MAX by {
        let i = k - max + j;
        assert(p[i] == p[k] - (k - i));
        assert(p.contains(p[i]));
        assert(t1.contains(p[i]));
    }
    if crosses_lunch(a, max as int) {
        let i = k - max + (3 - a);
        assert(p[i] == p[k] - (k - i));
        assert(p[i] != 3);
    }
    if !exceeds_run(sort_slots(t2), max) {
        lemma_no_long_run(t2, max, a);
    }
}

/// Classes only added keep a lecturer's count for a day from falling.
pub(crate) proof fn lemma_day_load_prefix(es: Seq<PlacedEntry>, k: int, l: i64, d: Seq<char>)
    requires
        0 <= k <= es.len(),
    ensures
        day_load(es.subrange(0, k), l, d) <= day_load(es, l, d),
    decreases es.len() - k,
{
    if k == es.len() {
        assert(es.subrange(0, k) =~= es);
    } else {
        let dl = es.drop_last();
        lemma_day_load_prefix(dl, k, l, d);
        assert(dl.subrange(0, k) =~= es.subrange(0, k));
    }
}

// ── How placed entries determine the booking state ───────────────────────────

pub(crate) proof fn lemma_day_slots_contains(es: Seq<PlacedEntry>, l: i64, d: Seq<char>, v: i64)
    ensures
        day_slots(es, l, d).contains(v) <==> lecturer_busy(es, l, d, v),
    decreases es.len(),
{
    if es.len() > 0 {
        let dl = es.drop_last();
        lemma_day_slots_contains(dl, l, d, v);
        let s = day_slots(es, l, d);
        let sd = day_slots(dl, l, d);
        if lecturer_busy(es, l, d, v) {
            let k = choose|k: int| #![trigger es[k]] 0 <= k < es.len() && es[k].lecturer_id == l && es[k].day@ == d && es[k].time_slot == v;
            if k < es.len() - 1 {
                assert(dl[k] == es[k]);
                assert(lecturer_busy(dl, l, d, v));
                let m = choose|m: int| 0 <= m < sd.len() && sd[m] == v;
                assert(s[m] == v);
            } else {
                assert(s[s.len() - 1] == v);
            }
        }
        if s.contains(v) {
            let m = choose|m: int| 0 <= m < s.len() && s[m] == v;
            if m < sd.len() {
                assert(sd[m] == v);
                assert(sd.contains(v));
                let k = choose|k: int| #![trigger dl[k]] 0 <= k < dl.len() && dl[k].lecturer_id == l && dl[k].day@ == d && dl[k].time_slot == v;
                assert(es[k] == dl[k]);
            } else {
                assert(es[es.len() - 1].time_slot == v);
            }
        }
    }
}

proof fn lemma_drop_last_no_double(es: Seq<PlacedEntry>)
    requires
        es.len() > 0,
        no_double_booking(es),
    ensures
        no_double_booking(es.drop_last()),
{
    let dl = es.drop_last();
    assert forall|i: int, j: int|
        #![trigger dl[i], dl[j]]
        0 <= i < dl.len() && 0 <= j < dl.len() && i != j && dl[i].day@ == dl[j].day@ && dl[i].time_slot == dl[j].time_slot
        implies dl[i].room_id != dl[j].room_id && dl[i].lecturer_id != dl[j].lecturer_id && dl[i].batch_id != dl[j].batch_id by {
        assert(dl[i] == es[i] && dl[j] == es[j]);
    }
}

pub(crate) proof fn lemma_day_slots_distinct(es: Seq<PlacedEntry>, l: i64, d: Seq<char>)
    requires
        no_double_booking(es),
    ensures
        distinct_slots(day_slots(es, l, d)),
    decreases es.len(),
{
    if es.len() > 0 {
        let dl = es.drop_last();
        lemma_drop_last_no_double(es);
        lemma_day_slots_distinct(dl, l, d);
        let sd = day_slots(dl, l, d);
        let e = es.last();
        if e.lecturer_id == l && e.day@ == d {
            lemma_day_slots_contains(dl, l, d, e.time_slot);
            assert(!sd.contains(e.time_slot)) by {
                if lecturer_busy(dl, l, d, e.time_slot) {
                    let k = choose|k: int| #![trigger dl[k]] 0 <= k < dl.len() && dl[k].lecturer_id == l && dl[k].day@ == d && dl[k].time_slot == e.time_slot;
                    assert(es[k] == dl[k]);
                    assert(es[es.len() - 1] == e);
                }
            }
            let s = sd.push(e.time_slot);
            assert forall|i: int, j: int| 0 <= i < s.len() && 0 <= j < s.len() && i != j implies #[trigger] s[i] != #[trigger] s[j] by {
                if i == s.len() - 1 {
                    assert(sd[j] == s[j]);
                } else if j == s.len() - 1 {
                    assert(sd[i] == s[i]);
                } else {
                    assert(sd[i] == s[i] && sd[j] == s[j]);
                }
            }
        }
    }
}

proof fn lemma_push_counts(es: Seq<PlacedEntry>, e: PlacedEntry, l: i64, d: Seq<char>, b: i64)
    ensures
        day_load(es.push(e), l, d) == day_load(es, l, d) + (if e.lecturer_id == l && e.day@ == d { 1nat } else { 0nat }),
        week_load(es.push(e), l) == week_load(es, l) + (if e.lecturer_id == l { 1nat } else { 0nat }),
        batch_day_count(es.push(e), b, d) == batch_day_count(es, b, d) + (if e.batch_id == b && e.day@ == d { 1nat } else { 0nat }),
        day_slots(es.push(e), l, d) == (if e.lecturer_id == l && e.day@ == d {
            day_slots(es, l, d).push(e.time_slot)
        } else {
            day_slots(es, l, d)
        }),
{
    assert(es.push(e).drop_last() =~= es);
    assert(es.push(e).last() == e);
}

proof fn lemma_remove_counts(es: Seq<PlacedEntry>, r: int, l: i64, d: Seq<char>)
    requires
        0 <= r < es.len(),
    ensures
        day_load(es.remove(r), l, d) <= day_load(es, l, d),
        week_load(es.remove(r), l) <= week_load(es, l),
    decreases es.len(),
{
    let er = es.remove(r);
    if r == es.len() - 1 {
        assert(er =~= es.drop_last());
    } else {
        let dl = es.drop_last();
        lemma_remove_counts(dl, r, l, d);
        assert(er.drop_last() =~= dl.remove(r));
        assert(er.last() == es.last());
    }
}

/// Adding one entry that passed every placement check keeps a timetable
/// within the hard constraints.
pub proof fn lemma_place_entry(input: SchedulerInput, days: Seq<Seq<char>>, es: Seq<PlacedEntry>, e: PlacedEntry)
    requires
        respects_constraints(input, days, es),
        can_place(input, days, es, e),
    ensures
        respects_constraints(input, days, es.push(e)),
{
    let es2 = es.push(e);
    let n = es.len() as int;
    let ls = input.lecturers@;
    assert(es2[n] == e);
    assert forall|i: int| 0 <= i < es2.len() implies entry_ok(input, days, #[trigger] es2[i]) by {
        if i < n {
            assert(es2[i] == es[i]);
        }
    }
    assert forall|i: int, j: int|
        #![trigger es2[i], es2[j]]
        0 <= i < es2.len() && 0 <= j < es2.len() && i != j && es2[i].day@ == es2[j].day@ && es2[i].time_slot == es2[j].time_slot
        implies es2[i].room_id != es2[j].room_id && es2[i].lecturer_id != es2[j].lecturer_id && es2[i].batch_id != es2[j].batch_id by {
        if i < n && j < n {
            assert(es2[i] == es[i] && es2[j] == es[j]);
        } else if i == n {
            assert(es2[j] == es[j]);
        } else {
            assert(es2[i] == es[i]);
        }
    }
    assert forall|i: int| #![trigger es2[i]] 0 <= i < es2.len() implies {
        let l = ls[lecturer_index(ls, es2[i].lecturer_id)];
        &&& day_load(es2, es2[i].lecturer_id, es2[i].day@) <= l.max_hours_per_day
        &&& week_load(es2, es2[i].lecturer_id) <= l.max_hours_per_week
    } by {
        let x = es2[i];
        lemma_push_counts(es, e, x.lecturer_id, x.day@, x.batch_id);
        if i < n {
            assert(es2[i] == es[i]);
        }
    }
    lemma_day_slots_distinct(es, e.lecturer_id, e.day@);
    lemma_day_slots_contains(es, e.lecturer_id, e.day@, e.time_slot);
    let t = day_slots(es, e.lecturer_id, e.day@).push(e.time_slot);
    assert(distinct_slots(t)) by {
        let sd = day_slots(es, e.lecturer_id, e.day@);
        assert forall|i: int, j: int| 0 <= i < t.len() && 0 <= j < t.len() && i != j implies #[trigger] t[i] != #[trigger] t[j] by {
            if i == t.len() - 1 {
                assert(sd[j] == t[j]);
                assert(sd.contains(t[j]));
            } else if j == t.len() - 1 {
                assert(sd[i] == t[i]);
                assert(sd.contains(t[i]));
            } else {
                assert(sd[i] == t[i] && sd[j] == t[j]);
            }
        }
    }
    assert forall|i: int, a: int|
        #![trigger es2[i], covers_run(day_slots(es2, es2[i].lecturer_id, es2[i].day@), a, ls[lecturer_index(ls, es2[i].lecturer_id)].max_consecutive_hours as int)]
        0 <= i < es2.len() && ls[lecturer_index(ls, es2[i].lecturer_id)].max_consecutive_hours > 0
            && covers_run(day_slots(es2, es2[i].lecturer_id, es2[i].day@), a, ls[lecturer_index(ls, es2[i].lecturer_id)].max_consecutive_hours as int)
        implies crosses_lunch(a, ls[lecturer_index(ls, es2[i].lecturer_id)].max_consecutive_hours as int) by {
        let x = es2[i];
        lemma_push_counts(es, e, x.lecturer_id, x.day@, x.batch_id);
        if x.lecturer_id == e.lecturer_id && x.day@ == e.day@ {
            lemma_no_long_run(t, ls[lecturer_index(ls, x.lecturer_id)].max_consecutive_hours, a);
        } else {
            assert(i < n);
            assert(es2[i] == es[i]);
        }
    }
}

/// Taking one entry out keeps a timetable within the hard constraints.
pub proof fn lemma_remove_entry(input: SchedulerInput, days: Seq<Seq<char>>, es: Seq<PlacedEntry>, r: int)
    requires
        respects_constraints(input, days, es),
        0 <= r < es.len(),
    ensures
        respects_constraints(input, days, es.remove(r)),
{
    let es2 = es.remove(r);
    let ls = input.lecturers@;
    assert forall|i: int| 0 <= i < es2.len() implies entry_ok(input, days, #[trigger] es2[i]) by {
        if i < r {
            assert(es2[i] == es[i]);
        } else {
            assert(es2[i] == es[i + 1]);
        }
    }
    assert forall|i: int, j: int|
        #![trigger es2[i], es2[j]]
        0 <= i < es2.len() && 0 <= j < es2.len() && i != j && es2[i].day@ == es2[j].day@ && es2[i].time_slot == es2[j].time_slot
        implies es2[i].room_id != es2[j].room_id && es2[i].lecturer_id != es2[j].lecturer_id && es2[i].batch_id != es2[j].batch_id by {
        let ii = if i < r { i } else { i + 1 };
        let jj = if j < r { j } else { j + 1 };
        assert(es2[i] == es[ii] && es2[j] == es[jj]);
    }
    assert forall|i: int| #![trigger es2[i]] 0 <= i < es2.len() implies {
        let l = ls[lecturer_index(ls, es2[i].lecturer_id)];
        &&& day_load(es2, es2[i].lecturer_id, es2[i].day@) <= l.max_hours_per_day
        &&& week_load(es2, es2[i].lecturer_id) <= l.max_hours_per_week
    } by {
        let ii = if i < r { i } else { i + 1 };
        assert(es2[i] == es[ii]);
        lemma_remove_counts(es, r, es2[i].lecturer_id, es2[i].day@);
    }
    assert forall|i: int, a: int|
        #![trigger es2[i], covers_run(day_slots(es2, es2[i].lecturer_id, es2[i].day@), a, ls[lecturer_index(ls, es2[i].lecturer_id)].max_consecutive_hours as int)]
        0 <= i < es2.len() && ls[lecturer_index(ls, es2[i].lecturer_id)].max_consecutive_hours > 0
            && covers_run(day_slots(es2, es2[i].lecturer_id, es2[i].day@), a, ls[lecturer_index(ls, es2[i].lecturer_id)].max_consecutive_hours as int)
        implies crosses_lunch(a, ls[lecturer_index(ls, es2[i].lecturer_id)].max_consecutive_hours as int) by {
        let ii = if i < r { i } else { i + 1 };
        assert(es2[i] == es[ii]);
        let x = es2[i];
        let m = ls[lecturer_index(ls, x.lecturer_id)].max_consecutive_hours as int;
        lemma_remove_keeps_cover(es, r, x.lecturer_id, x.day@, a, m);
    }
}

/// A run of slots a lecturer covers after one entry is removed was covered
/// before.
proof fn lemma_remove_keeps_cover(es: Seq<PlacedEntry>, r: int, l: i64, d: Seq<char>, a: int, m: int)
    requires
        0 <= r < es.len(),
        covers_run(day_slots(es.remove(r), l, d), a, m),
    ensures
        covers_run(day_slots(es, l, d), a, m),
{
    let es2 = es.remove(r);
    assert forall|j: int| 0 <= j <= m implies #[trigger] day_slots(es, l, d).contains((a + j) as i64) && a + j >= i64::MIN
        && a + j <= i64::MAX by {
        let v = (a + j) as i64;
        assert(day_slots(es2, l, d).contains(v));
        lemma_day_slots_contains(es2, l, d, v);
        lemma_day_slots_contains(es, l, d, v);
        let k = choose|k: int| #![trigger es2[k]] 0 <= k < es2.len() && es2[k].lecturer_id == l && es2[k].day@ == d && es2[k].time_slot == v;
        let kk = if k < r { k } else { k + 1 };
        assert(es2[k] == es[kk]);
        assert(lecturer_busy(es, l, d, v));
    }
}

} // verus!
