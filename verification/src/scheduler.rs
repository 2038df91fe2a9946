//! The greedy scheduler: needs are placed one after another, most sessions
//! first, each into the best-ranked free (day, slot) that passes every hard
//! constraint.

use vstd::prelude::*;
use crate::models::{Batch, Course, Lecturer, UnscheduledItem, is_time_slot};
use crate::text::{decimal, int_to_string, list_contains, list_has};
use crate::rules::{
    slot_penalty, slot_penalty_spec, preferred_penalty, preferred_penalty_spec, opt_text, is_blacked_out,
    would_exceed_consecutive, blacked_out_spec, exceeds_run, sort_slots,
};
use crate::timetable::{
    SchedulerInput, PlacedEntry, ScheduleResult, course_index, batch_index, lecturer_index,
    batch_day_count, count_batch_day, count_day_load, count_week_load, collect_day_slots, lecturer_is_busy,
    batch_is_busy, find_room, find_batch, find_course, find_lecturer, effective_days, respects_constraints,
    lemma_place_entry, resolve_days, week_load, day_load, day_slots, lecturer_busy, batch_busy, room_busy,
    room_fits, no_double_booking, lemma_day_load_prefix, lemma_day_slots_contains, lemma_day_slots_distinct,
    lemma_exceeds_run_grows, distinct_slots,
};

verus! {

// ── Needs ────────────────────────────────────────────────────────────────────

/// Sessions of one course that one batch must be given in a week.
#[derive(Clone, Copy, Debug)]
pub struct Need {
    pub batch_id: i64,
    pub course_id: i64,
    pub hours: i64,
    pub biweekly: bool,
}

/// A course taught every other week.
pub open spec fn is_biweekly(c: Course) -> bool {
    c.frequency@ == "biweekly"@
}

/// `(h + 1) / 2` with Rust's division, which rounds toward zero.
pub open spec fn half_up(h: int) -> int {
    let x = h + 1;
    if x >= 0 {
        x / 2
    } else {
        -((-x) / 2)
    }
}

/// Sessions a course needs per teaching week: its hours, or half of them
/// rounded up for a biweekly course.
pub open spec fn session_count(c: Course) -> int {
    if is_biweekly(c) {
        half_up(c.hours_per_week as int)
    } else {
        c.hours_per_week as int
    }
}

/// The need of a batch for the course with this id, when the course exists.
pub open spec fn need_for(cs: Seq<Course>, b: Batch, cid: i64) -> Need {
    let c = cs[course_index(cs, cid)];
    Need { batch_id: b.id, course_id: cid, hours: session_count(c) as i64, biweekly: is_biweekly(c) }
}

/// Needs of one batch for the course ids `ids`, in order, skipping ids of
/// no course.
pub open spec fn batch_needs(cs: Seq<Course>, b: Batch, ids: Seq<i64>) -> Seq<Need>
    decreases ids.len(),
{
    if ids.len() == 0 {
        Seq::<Need>::empty()
    } else if course_index(cs, ids.last()) >= 0 {
        batch_needs(cs, b, ids.drop_last()).push(need_for(cs, b, ids.last()))
    } else {
        batch_needs(cs, b, ids.drop_last())
    }
}

/// Needs of the batches, batch by batch.
pub open spec fn needs_from(cs: Seq<Course>, bs: Seq<Batch>) -> Seq<Need>
    decreases bs.len(),
{
    if bs.len() == 0 {
        Seq::<Need>::empty()
    } else {
        needs_from(cs, bs.drop_last()) + batch_needs(cs, bs.last(), bs.last().course_ids@)
    }
}

/// Every need of the input, in the order of batches and their course ids.
pub open spec fn needs_of(input: SchedulerInput) -> Seq<Need> {
    needs_from(input.courses@, input.batches@)
}

/// The session count of every course that a batch takes fits in `i64`.
pub open spec fn sessions_fit(input: SchedulerInput) -> bool {
    forall|b: int, j: int|
        #![trigger input.batches@[b].course_ids@[j]]
        0 <= b < input.batches@.len() && 0 <= j < input.batches@[b].course_ids@.len() ==> {
            let cs = input.courses@;
            let ci = course_index(cs, input.batches@[b].course_ids@[j]);
            ci >= 0 && is_biweekly(cs[ci]) ==> cs[ci].hours_per_week < i64::MAX
        }
}

/// Inserts `x` before the first need with fewer hours (so that needs with
/// equal hours keep their order).
pub open spec fn insert_need(s: Seq<Need>, x: Need) -> Seq<Need>
    decreases s.len(),
{
    if s.len() == 0 {
        seq![x]
    } else if s[0].hours < x.hours {
        seq![x] + s
    } else {
        seq![s[0]] + insert_need(s.drop_first(), x)
    }
}

/// The needs, most hours first; needs with equal hours keep their order.
pub open spec fn order_needs(s: Seq<Need>) -> Seq<Need>
    decreases s.len(),
{
    if s.len() == 0 {
        s
    } else {
        insert_need(order_needs(s.drop_last()), s.last())
    }
}

/// The needs of the input in the order the scheduler places them.
pub open spec fn ordered_needs(input: SchedulerInput) -> Seq<Need> {
    order_needs(needs_of(input))
}

/// A need arises from the input: its course exists and is taken by a
/// batch with its batch id, and its hours and frequency are the course's.
pub open spec fn need_ok(input: SchedulerInput, n: Need) -> bool {
    let cs = input.courses@;
    let bs = input.batches@;
    let ci = course_index(cs, n.course_id);
    &&& ci >= 0
    &&& n.hours == session_count(cs[ci])
    &&& n.biweekly == is_biweekly(cs[ci])
    &&& exists|b: int| 0 <= b < bs.len() && #[trigger] bs[b].id == n.batch_id && bs[b].course_ids@.contains(n.course_id)
}

/// Sessions a course needs per teaching week.
fn sessions_of(c: &Course) -> (h: i64)
    requires
        is_biweekly(*c) ==> c.hours_per_week < i64::MAX,
    ensures
        h == session_count(*c),
{
    if crate::text::str_eq(c.frequency.as_str(), "biweekly") {
        proof {
            reveal_strlit("biweekly");
        }
        let x = c.hours_per_week + 1;
        if x >= 0 {
            x / 2
        } else {
            -((-x) / 2)
        }
    } else {
        c.hours_per_week
    }
}

/// Every need of the input, batch by batch and course by course (ids of no
/// course are skipped).
pub fn build_needs(input: &SchedulerInput) -> (v: Vec<Need>)
    requires
        sessions_fit(*input),
    ensures
        v@ == needs_of(*input),
        forall|i: int| 0 <= i < v@.len() ==> need_ok(*input, #[trigger] v@[i]),
{
    let ghost cs = input.courses@;
    let ghost bs = input.batches@;
    let mut v: Vec<Need> = Vec::new();
    let mut b: usize = 0;
    assert(bs.subrange(0, 0) =~= Seq::<Batch>::empty());
    while b < input.batches.len()
        invariant
            cs == input.courses@,
            bs == input.batches@,
            sessions_fit(*input),
            b <= bs.len(),
            v@ == needs_from(cs, bs.subrange(0, b as int)),
            forall|i: int| 0 <= i < v@.len() ==> need_ok(*input, #[trigger] v@[i]),
        decreases bs.len() - b,
    {
        let batch = &input.batches[b];
        let ghost start = v@;
        let mut j: usize = 0;
        assert(batch.course_ids@.subrange(0, 0) =~= Seq::<i64>::empty());
        assert(start + batch_needs(cs, *batch, batch.course_ids@.subrange(0, 0)) =~= start);
        while j < batch.course_ids.len()
            invariant
                cs == input.courses@,
                bs == input.batches@,
                sessions_fit(*input),
                b < bs.len(),
                *batch == bs[b as int],
                j <= batch.course_ids@.len(),
                v@ == start + batch_needs(cs, *batch, batch.course_ids@.subrange(0, j as int)),
                forall|i: int| 0 <= i < v@.len() ==> need_ok(*input, #[trigger] v@[i]),
            decreases batch.course_ids@.len() - j,
        {
            let cid = batch.course_ids[j];
            let ghost ids = batch.course_ids@.subrange(0, j + 1);
            assert(ids.drop_last() =~= batch.course_ids@.subrange(0, j as int));
            assert(ids.last() == cid);
            match crate::timetable::find_course(&input.courses, cid) {
                Some(ci) => {
                    let c = &input.courses[ci];
                    assert(input.batches@[b as int].course_ids@[j as int] == cid);
                    let h = sessions_of(c);
                    let biweekly = crate::text::str_eq(c.frequency.as_str(), "biweekly");
                    proof {
                        reveal_strlit("biweekly");
                    }
                    let n = Need { batch_id: batch.id, course_id: cid, hours: h, biweekly };
                    assert(n == need_for(cs, *batch, cid));
                    assert(bs[b as int].course_ids@.contains(cid));
                    assert(need_ok(*input, n));
                    v.push(n);
                    assert(v@ =~= start + batch_needs(cs, *batch, ids));
                },
                None => {
                    assert(v@ =~= start + batch_needs(cs, *batch, ids));
                },
            }
            j = j + 1;
        }
        assert(batch.course_ids@.subrange(0, j as int) =~= batch.course_ids@);
        assert(bs.subrange(0, b + 1).drop_last() =~= bs.subrange(0, b as int));
        assert(bs.subrange(0, b + 1).last() == *batch);
        b = b + 1;
    }
    assert(bs.subrange(0, b as int) =~= bs);
    v
}

// ── Ordering the needs ───────────────────────────────────────────────────────

proof fn lemma_insert_need_at(s: Seq<Need>, x: Need, p: int)
    requires
        0 <= p <= s.len(),
        forall|j: int| 0 <= j < p ==> !(#[trigger] s[j].hours < x.hours),
        p == s.len() || s[p].hours < x.hours,
    ensures
        insert_need(s, x) == s.subrange(0, p) + seq![x] + s.subrange(p, s.len() as int),
    decreases p,
{
    if p == 0 {
        if s.len() == 0 {
            assert(seq![x] =~= s.subrange(0, 0) + seq![x] + s.subrange(0, 0));
        } else {
            assert(seq![x] + s =~= s.subrange(0, 0) + seq![x] + s.subrange(0, s.len() as int));
        }
    } else {
        let t = s.drop_first();
        assert forall|j: int| 0 <= j < p - 1 implies !(#[trigger] t[j].hours < x.hours) by {
            assert(t[j] == s[j + 1]);
        }
        if p < s.len() {
            assert(t[p - 1] == s[p]);
        }
        lemma_insert_need_at(t, x, p - 1);
        assert(!(s[0].hours < x.hours));
        assert(seq![s[0]] + (t.subrange(0, p - 1) + seq![x] + t.subrange(p - 1, t.len() as int))
            =~= s.subrange(0, p) + seq![x] + s.subrange(p, s.len() as int));
    }
}

/// The needs, most hours first, needs with equal hours in their order.
pub fn order_need_list(v: &Vec<Need>) -> (r: Vec<Need>)
    ensures
        r@ == order_needs(v@),
{
    let mut r: Vec<Need> = Vec::new();
    let mut i: usize = 0;
    assert(v@.subrange(0, 0) =~= Seq::<Need>::empty());
    while i < v.len()
        invariant
            i <= v@.len(),
            r@ == order_needs(v@.subrange(0, i as int)),
        decreases v@.len() - i,
    {
        let x = v[i];
        let mut p: usize = 0;
        while p < r.len() && !(r[p].hours < x.hours)
            invariant
                p <= r@.len(),
                forall|j: int| 0 <= j < p ==> !(#[trigger] r@[j].hours < x.hours),
            decreases r@.len() - p,
        {
            p = p + 1;
        }
        proof {
            lemma_insert_need_at(r@, x, p as int);
            assert(v@.subrange(0, i + 1).drop_last() =~= v@.subrange(0, i as int));
            assert(v@.subrange(0, i + 1).last() == x);
        }
        let ghost before = r@;
        r.insert(p, x);
        assert(r@ =~= before.subrange(0, p as int) + seq![x] + before.subrange(p as int, before.len() as int));
        i = i + 1;
    }
    assert(v@.subrange(0, i as int) =~= v@);
    r
}

proof fn lemma_insert_need_len(s: Seq<Need>, x: Need)
    ensures
        insert_need(s, x).len() == s.len() + 1,
        forall|i: int| 0 <= i < insert_need(s, x).len() ==>
            #[trigger] insert_need(s, x)[i] == x || s.contains(insert_need(s, x)[i]),
    decreases s.len(),
{
    let r = insert_need(s, x);
    if s.len() > 0 && !(s[0].hours < x.hours) {
        let t = s.drop_first();
        lemma_insert_need_len(t, x);
        assert forall|i: int| 0 <= i < r.len() implies #[trigger] r[i] == x || s.contains(r[i]) by {
            if i == 0 {
                assert(s[0] == r[0]);
            } else {
                assert(r[i] == insert_need(t, x)[i - 1]);
                if insert_need(t, x)[i - 1] != x {
                    let k = choose|k: int| 0 <= k < t.len() && t[k] == r[i];
                    assert(s[k + 1] == r[i]);
                }
            }
        }
    } else if s.len() > 0 {
        assert forall|i: int| 0 <= i < r.len() implies #[trigger] r[i] == x || s.contains(r[i]) by {
            if i > 0 {
                assert(r[i] == s[i - 1]);
            }
        }
    }
}

/// Ordering the needs keeps each need and adds none.
proof fn lemma_order_needs_elems(s: Seq<Need>)
    ensures
        order_needs(s).len() == s.len(),
        forall|i: int| 0 <= i < order_needs(s).len() ==> s.contains(#[trigger] order_needs(s)[i]),
    decreases s.len(),
{
    if s.len() > 0 {
        let d = s.drop_last();
        lemma_order_needs_elems(d);
        lemma_insert_need_len(order_needs(d), s.last());
        let r = order_needs(s);
        assert forall|i: int| 0 <= i < r.len() implies s.contains(#[trigger] r[i]) by {
            if r[i] == s.last() {
                assert(s[s.len() - 1] == r[i]);
            } else {
                let k = choose|k: int| 0 <= k < order_needs(d).len() && order_needs(d)[k] == r[i];
                let m = choose|m: int| 0 <= m < d.len() && d[m] == order_needs(d)[k];
                assert(s[m] == r[i]);
            }
        }
    }
}

// ── What each need owes the report ──────────────────────────────────────────

/// Sessions that a need contributes to the report, placed or unscheduled:
/// its hours when its course has no lecturer or an unknown one (reported
/// as they are), else its hours when positive (placed or reported
/// missing), else nothing.
pub open spec fn expected_hours(input: SchedulerInput, n: Need) -> int {
    let cs = input.courses@;
    let ci = course_index(cs, n.course_id);
    let bi = batch_index(input.batches@, n.batch_id);
    if ci < 0 || bi < 0 {
        0
    } else {
        match cs[ci].lecturer_id {
            None => n.hours as int,
            Some(lid) => if lecturer_index(input.lecturers@, lid) < 0 {
                n.hours as int
            } else if n.hours > 0 {
                n.hours as int
            } else {
                0
            },
        }
    }
}

/// Sum of `expected_hours` over a list of needs.
pub open spec fn expected_total(input: SchedulerInput, s: Seq<Need>) -> int
    decreases s.len(),
{
    if s.len() == 0 {
        0
    } else {
        expected_total(input, s.drop_last()) + expected_hours(input, s.last())
    }
}

/// Sum of the hours of the unscheduled items.
pub open spec fn hours_sum(items: Seq<UnscheduledItem>) -> int
    decreases items.len(),
{
    if items.len() == 0 {
        0
    } else {
        hours_sum(items.drop_last()) + items.last().hours_needed
    }
}

proof fn lemma_total_concat(input: SchedulerInput, a: Seq<Need>, b: Seq<Need>)
    ensures
        expected_total(input, a + b) == expected_total(input, a) + expected_total(input, b),
    decreases b.len(),
{
    if b.len() == 0 {
        assert(a + b =~= a);
    } else {
        lemma_total_concat(input, a, b.drop_last());
        assert((a + b).drop_last() =~= a + b.drop_last());
        assert((a + b).last() == b.last());
    }
}

proof fn lemma_total_insert(input: SchedulerInput, s: Seq<Need>, x: Need)
    ensures
        expected_total(input, insert_need(s, x)) == expected_total(input, s) + expected_hours(input, x),
    decreases s.len(),
{
    assert(expected_total(input, Seq::<Need>::empty()) == 0);
    if s.len() == 0 {
        assert(seq![x].drop_last() =~= Seq::<Need>::empty());
        assert(seq![x].last() == x);
        assert(expected_total(input, seq![x]) == expected_hours(input, x));
    } else {
        let t = s.drop_first();
        assert(seq![x].drop_last() =~= Seq::<Need>::empty());
        assert(seq![s[0]].drop_last() =~= Seq::<Need>::empty());
        assert(seq![x].last() == x);
        assert(seq![s[0]].last() == s[0]);
        assert(expected_total(input, seq![x]) == expected_hours(input, x));
        assert(expected_total(input, seq![s[0]]) == expected_hours(input, s[0]));
        assert(s =~= seq![s[0]] + t);
        lemma_total_concat(input, seq![s[0]], t);
        assert(seq![s[0]].drop_last() =~= Seq::<Need>::empty());
        assert(seq![x].drop_last() =~= Seq::<Need>::empty());
        if s[0].hours < x.hours {
            lemma_total_concat(input, seq![x], s);
        } else {
            lemma_total_insert(input, t, x);
            lemma_total_concat(input, seq![s[0]], insert_need(t, x));
        }
    }
}

/// Ordering the needs keeps what they owe in total.
proof fn lemma_total_order(input: SchedulerInput, s: Seq<Need>)
    ensures
        expected_total(input, order_needs(s)) == expected_total(input, s),
    decreases s.len(),
{
    if s.len() > 0 {
        lemma_total_order(input, s.drop_last());
        lemma_total_insert(input, order_needs(s.drop_last()), s.last());
    }
}

// ── Ranking the (day, slot) candidates of a need ─────────────────────────────

/// A candidate (day, slot) of a need with the key it is ranked by: how many
/// classes the batch already has that day, the slot's penalty for the class
/// type plus the lecturer's time-of-day penalty, the day's position among
/// the working days, and the slot.
#[derive(Clone, Copy, Debug)]
pub struct SlotChoice {
    pub load: u64,
    pub penalty: i64,
    pub rank: u64,
    pub slot: i64,
    /// Index of the day in the working-day list.
    pub day: usize,
}

/// `a` ranks no later than `b`: lexicographic order of the keys.
pub open spec fn choice_le(a: SlotChoice, b: SlotChoice) -> bool {
    ||| a.load < b.load
    ||| a.load == b.load && a.penalty < b.penalty
    ||| a.load == b.load && a.penalty == b.penalty && a.rank < b.rank
    ||| a.load == b.load && a.penalty == b.penalty && a.rank == b.rank && a.slot <= b.slot
}

/// The key of a candidate is the one described on `SlotChoice`.
pub open spec fn choice_ok(
    days: Seq<Seq<char>>,
    es: Seq<PlacedEntry>,
    batch_id: i64,
    class_type: Seq<char>,
    preferred: Option<Seq<char>>,
    c: SlotChoice,
) -> bool {
    &&& c.day < days.len()
    &&& is_time_slot(c.slot)
    &&& c.load == batch_day_count(es, batch_id, days[c.day as int])
    &&& c.penalty == slot_penalty_spec(class_type, c.slot) + preferred_penalty_spec(preferred, days[c.day as int], c.slot)
    &&& c.rank < days.len()
    &&& days[c.rank as int] == days[c.day as int]
    &&& forall|j: int| 0 <= j < c.rank ==> #[trigger] days[j] != days[c.day as int]
}

/// Some candidate is the day with index `d` at slot `s`.
pub open spec fn covers(v: Seq<SlotChoice>, d: int, s: int) -> bool {
    exists|i: int| 0 <= i < v.len() && #[trigger] v[i].day == d && v[i].slot == s
}

/// Position of the first working day equal to the one at `d`.
pub(crate) fn first_day_pos(days: &Vec<String>, d: usize) -> (r: usize)
    requires
        d < days@.len(),
    ensures
        r <= d,
        days.deep_view()[r as int] == days.deep_view()[d as int],
        forall|j: int| 0 <= j < r ==> #[trigger] days.deep_view()[j] != days.deep_view()[d as int],
{
    let mut r: usize = 0;
    while r < d && !crate::text::str_eq(days[r].as_str(), days[d].as_str())
        invariant
            r <= d,
            d < days@.len(),
            forall|j: int| 0 <= j < r ==> #[trigger] days.deep_view()[j] != days.deep_view()[d as int],
        decreases d - r,
    {
        r = r + 1;
    }
    r
}

/// The choices of a need, every working day with every slot, in the order
/// of their keys (candidates with equal keys keep the order day by day,
/// slot by slot).
pub fn rank_candidates(
    days: &Vec<String>,
    es: &Vec<PlacedEntry>,
    batch_id: i64,
    class_type: &String,
    preferred: &Option<String>,
) -> (v: Vec<SlotChoice>)
    ensures
        v@.len() == days@.len() * 8,
        forall|i: int| 0 <= i < v@.len() ==>
            choice_ok(days.deep_view(), es@, batch_id, class_type@, opt_text(*preferred), #[trigger] v@[i]),
        forall|i: int, j: int| 0 <= i <= j < v@.len() ==> choice_le(#[trigger] v@[i], #[trigger] v@[j]),
        forall|d: int, s: int| 0 <= d < days@.len() && 0 <= s < 8 ==> #[trigger] covers(v@, d, s),
{
    let ghost dv = days.deep_view();
    let mut v: Vec<SlotChoice> = Vec::new();
    let mut d: usize = 0;
    while d < days.len()
        invariant
            dv == days.deep_view(),
            d <= days@.len(),
            v@.len() == d * 8,
            forall|i: int| 0 <= i < v@.len() ==>
                choice_ok(dv, es@, batch_id, class_type@, opt_text(*preferred), #[trigger] v@[i]),
            forall|i: int, j: int| 0 <= i <= j < v@.len() ==> choice_le(#[trigger] v@[i], #[trigger] v@[j]),
            forall|d2: int, s2: int| 0 <= d2 < d && 0 <= s2 < 8 ==> #[trigger] covers(v@, d2, s2),
        decreases days@.len() - d,
    {
        let day = &days[d];
        assert(day@ == dv[d as int]);
        let load = count_batch_day(es, batch_id, day) as u64;
        let rank = first_day_pos(days, d) as u64;
        let mut s: i64 = 0;
        while s < 8
            invariant
                dv == days.deep_view(),
                d < days@.len(),
                *day == days@[d as int],
                day@ == dv[d as int],
                load == batch_day_count(es@, batch_id, dv[d as int]),
                rank < days@.len(),
                dv[rank as int] == dv[d as int],
                forall|j: int| 0 <= j < rank ==> #[trigger] dv[j] != dv[d as int],
                0 <= s <= 8,
                v@.len() == d * 8 + s,
                forall|i: int| 0 <= i < v@.len() ==>
                    choice_ok(dv, es@, batch_id, class_type@, opt_text(*preferred), #[trigger] v@[i]),
                forall|i: int, j: int| 0 <= i <= j < v@.len() ==> choice_le(#[trigger] v@[i], #[trigger] v@[j]),
                forall|d2: int, s2: int| 0 <= d2 < d && 0 <= s2 < 8 ==> #[trigger] covers(v@, d2, s2),
                forall|s2: int| 0 <= s2 < s ==> #[trigger] covers(v@, d as int, s2),
            decreases 8 - s,
        {
            let pen = slot_penalty(class_type.as_str(), s) + preferred_penalty(preferred, day.as_str(), s);
            let x = SlotChoice { load, penalty: pen, rank, slot: s, day: d };
            let mut p: usize = 0;
            while p < v.len() && (v[p].load < x.load || (v[p].load == x.load && (v[p].penalty < x.penalty
                || (v[p].penalty == x.penalty && (v[p].rank < x.rank || (v[p].rank == x.rank && v[p].slot <= x.slot))))))
                invariant
                    p <= v@.len(),
                    forall|j: int| 0 <= j < p ==> choice_le(#[trigger] v@[j], x),
                decreases v@.len() - p,
            {
                p = p + 1;
            }
            let ghost before = v@;
            v.insert(p, x);
            proof {
                assert(v@ =~= before.subrange(0, p as int) + seq![x] + before.subrange(p as int, before.len() as int));
                assert forall|i: int| 0 <= i < v@.len() implies
                    choice_ok(dv, es@, batch_id, class_type@, opt_text(*preferred), #[trigger] v@[i]) by {
                    if i < p {
                        assert(v@[i] == before[i]);
                    } else if i > p {
                        assert(v@[i] == before[i - 1]);
                    }
                }
                assert forall|i: int, j: int| 0 <= i <= j < v@.len() implies choice_le(#[trigger] v@[i], #[trigger] v@[j]) by {
                    if p < before.len() {
                        assert(!choice_le(before[p as int], x));
                    }
                    if i < p && j < p {
                        assert(v@[i] == before[i] && v@[j] == before[j]);
                    } else if i < p && j == p {
                        assert(v@[i] == before[i]);
                    } else if i < p && j > p {
                        assert(v@[i] == before[i] && v@[j] == before[j - 1]);
                    } else if i == p && j > p {
                        assert(v@[j] == before[j - 1]);
                        assert(choice_le(before[p as int], before[j - 1]));
                    } else if i > p {
                        assert(v@[i] == before[i - 1] && v@[j] == before[j - 1]);
                    }
                }
                assert forall|d2: int, s2: int| 0 <= d2 < d && 0 <= s2 < 8 implies #[trigger] covers(v@, d2, s2) by {
                    assert(covers(before, d2, s2));
                    let k = choose|k: int| 0 <= k < before.len() && #[trigger] before[k].day == d2 && before[k].slot == s2;
                    if k < p {
                        assert(v@[k] == before[k]);
                    } else {
                        assert(v@[k + 1] == before[k]);
                    }
                }
                assert forall|s2: int| 0 <= s2 < s + 1 implies #[trigger] covers(v@, d as int, s2) by {
                    if s2 == s {
                        assert(v@[p as int] == x);
                    } else {
                        assert(covers(before, d as int, s2));
                        let k = choose|k: int| 0 <= k < before.len() && #[trigger] before[k].day == d && before[k].slot == s2;
                        if k < p {
                            assert(v@[k] == before[k]);
                        } else {
                            assert(v@[k + 1] == before[k]);
                        }
                    }
                }
            }
            s = s + 1;
        }
        d = d + 1;
    }
    v
}

// ── Placing one need ─────────────────────────────────────────────────────────

/// Reason given when a lecturer's weekly limit stops a need.
pub open spec fn weekly_max_reason(name: Seq<char>, max: i64) -> Seq<char> {
    "Lecturer '"@ + name + "' reached weekly max ("@ + decimal(max as int) + " h)"@
}

/// Reason given when only some sessions of a need found a slot and a room.
pub open spec fn partial_reason(placed: int, hours: int) -> Seq<char> {
    "Could only place "@ + decimal(placed) + "/"@ + decimal(hours) + " sessions — no valid slot/room for remaining"@
}

/// An unscheduled item reports the need: the batch's name and the course's
/// code and name, and one of the four reasons with the hours it leaves
/// unplaced.
pub open spec fn item_explains(input: SchedulerInput, n: Need, u: UnscheduledItem) -> bool {
    let cs = input.courses@;
    let bs = input.batches@;
    let ls = input.lecturers@;
    let ci = course_index(cs, n.course_id);
    let bi = batch_index(bs, n.batch_id);
    &&& 0 <= ci && 0 <= bi
    &&& u.batch_name@ == bs[bi].name@
    &&& u.course_code@ == cs[ci].code@
    &&& u.course_name@ == cs[ci].name@
    &&& match cs[ci].lecturer_id {
        None => u.hours_needed == n.hours && u.reason@ == "No lecturer assigned to course"@,
        Some(lid) => if lecturer_index(ls, lid) < 0 {
            u.hours_needed == n.hours && u.reason@ == "Assigned lecturer not found"@
        } else {
            let l = ls[lecturer_index(ls, lid)];
            &&& 0 < u.hours_needed <= n.hours
            &&& (u.reason@ == weekly_max_reason(l.name@, l.max_hours_per_week) || u.reason@ == partial_reason(
                n.hours - u.hours_needed,
                n.hours as int,
            ))
        },
    }
}

/// A weekly-limit report is true of the timetable `es`: the lecturer of
/// the need's course teaches at least the weekly limit in it.
pub open spec fn weekly_report_true(input: SchedulerInput, n: Need, u: UnscheduledItem, es: Seq<PlacedEntry>) -> bool {
    let cs = input.courses@;
    let ls = input.lecturers@;
    let ci = course_index(cs, n.course_id);
    ci >= 0 ==> match cs[ci].lecturer_id {
        Some(lid) => lecturer_index(ls, lid) >= 0 ==> (u.reason@ == weekly_max_reason(
            ls[lecturer_index(ls, lid)].name@,
            ls[lecturer_index(ls, lid)].max_hours_per_week,
        ) ==> week_load(es, lid) >= ls[lecturer_index(ls, lid)].max_hours_per_week),
        None => true,
    }
}

/// A partial-placement report is true of the timetable `es`: no working
/// day and slot is open for another class of the need.
pub open spec fn partial_report_true(
    input: SchedulerInput,
    days: Seq<Seq<char>>,
    n: Need,
    u: UnscheduledItem,
    es: Seq<PlacedEntry>,
) -> bool {
    let cs = input.courses@;
    let ls = input.lecturers@;
    let ci = course_index(cs, n.course_id);
    ci >= 0 ==> match cs[ci].lecturer_id {
        Some(lid) => lecturer_index(ls, lid) >= 0 ==> (u.reason@ == partial_reason(
            n.hours - u.hours_needed,
            n.hours as int,
        ) ==> forall|d: int, s: i64|
            0 <= d < days.len() && is_time_slot(s) ==> !#[trigger] slot_open(input, es, n, lid, days[d], s)),
        None => true,
    }
}

/// The reports follow the needs: report `j` is about need `owner[j]`,
/// explains it, and a weekly-limit or a partial-placement report is true of
/// the timetable; the needs come in the order of the list, at most one
/// report each.
pub open spec fn reports_follow_needs(
    input: SchedulerInput,
    days: Seq<Seq<char>>,
    needs: Seq<Need>,
    items: Seq<UnscheduledItem>,
    es: Seq<PlacedEntry>,
    owner: Seq<int>,
) -> bool {
    &&& owner.len() == items.len()
    &&& forall|j: int|
        #![trigger owner[j]]
        0 <= j < items.len() ==> 0 <= owner[j] < needs.len() && item_explains(input, needs[owner[j]], items[j])
            && weekly_report_true(input, needs[owner[j]], items[j], es)
            && partial_report_true(input, days, needs[owner[j]], items[j], es)
    &&& forall|i: int, j: int| 0 <= i < j < items.len() ==> #[trigger] owner[i] < #[trigger] owner[j]
}

/// A partial-placement reason is never a weekly-limit reason (they start
/// differently).
proof fn lemma_reasons_differ(placed: int, hours: int, name: Seq<char>, max: i64)
    ensures
        partial_reason(placed, hours) != weekly_max_reason(name, max),
{
    reveal_strlit("Could only place ");
    reveal_strlit("Lecturer '");
    let p = partial_reason(placed, hours);
    let w = weekly_max_reason(name, max);
    assert(p[0] == 'C');
    assert(w[0] == 'L');
}

/// Classes only added keep a lecturer's weekly count from falling.
proof fn lemma_week_load_prefix(es: Seq<PlacedEntry>, k: int, l: i64)
    requires
        0 <= k <= es.len(),
    ensures
        week_load(es.subrange(0, k), l) <= week_load(es, l),
    decreases es.len() - k,
{
    if k == es.len() {
        assert(es.subrange(0, k) =~= es);
    } else {
        let d = es.drop_last();
        lemma_week_load_prefix(d, k, l);
        assert(d.subrange(0, k) =~= es.subrange(0, k));
    }
}

/// A class of the need, taught by lecturer `lid`, could still go at
/// (`day`, `slot`) of the timetable `es`: the lecturer is available that day
/// and not blacked out, under the daily and the weekly limit, the slot makes
/// no run longer than the lecturer's limit, lecturer and batch are free, and
/// some room fits and is free.
pub open spec fn slot_open(input: SchedulerInput, es: Seq<PlacedEntry>, n: Need, lid: i64, day: Seq<char>, slot: i64) -> bool {
    let cs = input.courses@;
    let ls = input.lecturers@;
    let bs = input.batches@;
    let rs = input.rooms@;
    let c = cs[course_index(cs, n.course_id)];
    let l = ls[lecturer_index(ls, lid)];
    let b = bs[batch_index(bs, n.batch_id)];
    &&& list_has(l.available_days@, day)
    &&& !blacked_out_spec(opt_text(l.blackout_json), day, slot)
    &&& day_load(es, lid, day) < l.max_hours_per_day
    &&& week_load(es, lid) < l.max_hours_per_week
    &&& !exceeds_run(sort_slots(day_slots(es, lid, day).push(slot)), l.max_consecutive_hours)
    &&& !lecturer_busy(es, lid, day, slot)
    &&& !batch_busy(es, n.batch_id, day, slot)
    &&& exists|r: int| 0 <= r < rs.len() && room_fits(#[trigger] rs[r], c, b, day) && !room_busy(es, rs[r].id, day, slot)
}

/// Position of the first working day equal to `day`, or -1.
pub open spec fn first_index(days: Seq<Seq<char>>, day: Seq<char>) -> int
    decreases days.len(),
{
    if days.len() == 0 {
        -1
    } else if days[0] == day {
        0
    } else if first_index(days.drop_first(), day) < 0 {
        -1
    } else {
        first_index(days.drop_first(), day) + 1
    }
}

proof fn lemma_first_index(days: Seq<Seq<char>>, day: Seq<char>, r: int)
    requires
        0 <= r < days.len(),
        days[r] == day,
        forall|j: int| 0 <= j < r ==> #[trigger] days[j] != day,
    ensures
        first_index(days, day) == r,
    decreases r,
{
    if r > 0 {
        let t = days.drop_first();
        assert forall|j: int| 0 <= j < r - 1 implies #[trigger] t[j] != day by {
            assert(t[j] == days[j + 1]);
        }
        assert(t[r - 1] == day);
        lemma_first_index(t, day, r - 1);
        assert(days[0] != day);
    }
}

/// The key a need's candidate (`day`, `slot`) is ranked by, given the
/// classes `base` booked before the need: the batch's classes that day, the
/// slot's penalty for the class type plus the lecturer's time-of-day
/// penalty, the day's first position among the working days, the slot.
pub open spec fn rank_key(
    input: SchedulerInput,
    days: Seq<Seq<char>>,
    base: Seq<PlacedEntry>,
    n: Need,
    lid: i64,
    day: Seq<char>,
    slot: i64,
) -> (int, int, int, int) {
    let c = input.courses@[course_index(input.courses@, n.course_id)];
    let l = input.lecturers@[lecturer_index(input.lecturers@, lid)];
    (
        batch_day_count(base, n.batch_id, day) as int,
        slot_penalty_spec(c.class_type@, slot) + preferred_penalty_spec(opt_text(l.preferred_slots_json), day, slot),
        first_index(days, day),
        slot as int,
    )
}

/// Key `a` ranks strictly before key `b`.
pub open spec fn key_lt(a: (int, int, int, int), b: (int, int, int, int)) -> bool {
    ||| a.0 < b.0
    ||| a.0 == b.0 && a.1 < b.1
    ||| a.0 == b.0 && a.1 == b.1 && a.2 < b.2
    ||| a.0 == b.0 && a.1 == b.1 && a.2 == b.2 && a.3 < b.3
}

/// Class `e` is the greedy choice for the need, taught by `lid`, given the
/// classes `state` booked before it and `base` booked before the need: it
/// is a class of the need at an open working day and slot, in the first
/// room that fits and is free there, and no working day and slot that
/// ranks before it is open.
pub open spec fn greedy_pick(
    input: SchedulerInput,
    days: Seq<Seq<char>>,
    n: Need,
    lid: i64,
    base: Seq<PlacedEntry>,
    state: Seq<PlacedEntry>,
    e: PlacedEntry,
) -> bool {
    let rs = input.rooms@;
    let c = input.courses@[course_index(input.courses@, n.course_id)];
    let b = input.batches@[batch_index(input.batches@, n.batch_id)];
    &&& e.course_id == n.course_id
    &&& e.batch_id == n.batch_id
    &&& e.lecturer_id == lid
    &&& days.contains(e.day@)
    &&& is_time_slot(e.time_slot)
    &&& slot_open(input, state, n, lid, e.day@, e.time_slot)
    &&& exists|r: int|
        0 <= r < rs.len() && #[trigger] rs[r].id == e.room_id && room_fits(rs[r], c, b, e.day@)
            && !room_busy(state, rs[r].id, e.day@, e.time_slot) && forall|j: int|
            0 <= j < r ==> !(room_fits(#[trigger] rs[j], c, b, e.day@) && !room_busy(state, rs[j].id, e.day@, e.time_slot))
    &&& forall|d: int, s: i64|
        0 <= d < days.len() && is_time_slot(s) && key_lt(
            #[trigger] rank_key(input, days, base, n, lid, days[d], s),
            rank_key(input, days, base, n, lid, e.day@, e.time_slot),
        ) ==> !slot_open(input, state, n, lid, days[d], s)
}

/// The checks the scheduler makes on a candidate before the weekly limit:
/// the lecturer is available that day, not blacked out, under the daily
/// limit.
pub open spec fn scan_passes(l: Lecturer, lid: i64, es: Seq<PlacedEntry>, day: Seq<char>, slot: i64) -> bool {
    &&& list_has(l.available_days@, day)
    &&& !blacked_out_spec(opt_text(l.blackout_json), day, slot)
    &&& day_load(es, lid, day) < l.max_hours_per_day
}

/// With `es` the classes at the end of the need, no working day and slot
/// ranked after its last class (any, if it placed none) passes the checks
/// made before the weekly limit.
pub open spec fn scan_closed_after(
    input: SchedulerInput,
    days: Seq<Seq<char>>,
    n: Need,
    lid: i64,
    base: Seq<PlacedEntry>,
    es: Seq<PlacedEntry>,
) -> bool {
    forall|d: int, s: i64| #[trigger] scan_closed_at(input, days, n, lid, base, es, d, s)
}

/// Working day `d` at slot `s`, if it ranks after the need's last class
/// (or the need placed none), fails the checks made before the weekly limit.
pub open spec fn scan_closed_at(
    input: SchedulerInput,
    days: Seq<Seq<char>>,
    n: Need,
    lid: i64,
    base: Seq<PlacedEntry>,
    es: Seq<PlacedEntry>,
    d: int,
    s: i64,
) -> bool {
    0 <= d < days.len() && is_time_slot(s) && (es.len() == base.len() || key_lt(
        rank_key(input, days, base, n, lid, es.last().day@, es.last().time_slot),
        rank_key(input, days, base, n, lid, days[d], s),
    )) ==> !scan_passes(input.lecturers@[lecturer_index(input.lecturers@, lid)], lid, es, days[d], s)
}

/// A partial-placement report about the need was given rather than a
/// weekly-limit report: with `es` the classes at the end of the need, its
/// lecturer is under the weekly limit, or no candidate ranked after the
/// need's last class (any, if it placed none) passes the checks made
/// before the weekly limit.
pub open spec fn partial_not_weekly(
    input: SchedulerInput,
    days: Seq<Seq<char>>,
    n: Need,
    u: UnscheduledItem,
    base: Seq<PlacedEntry>,
    es: Seq<PlacedEntry>,
) -> bool {
    let cs = input.courses@;
    let ls = input.lecturers@;
    let ci = course_index(cs, n.course_id);
    ci >= 0 ==> match cs[ci].lecturer_id {
        Some(lid) => lecturer_index(ls, lid) >= 0 ==> (u.reason@ == partial_reason(
            n.hours - u.hours_needed,
            n.hours as int,
        ) ==> {
            ||| week_load(es, lid) < ls[lecturer_index(ls, lid)].max_hours_per_week
            ||| scan_closed_after(input, days, n, lid, base, es)
        }),
        None => true,
    }
}

/// Placing classes never opens a slot: a slot open in a timetable was open
/// in every earlier state of it.
pub proof fn lemma_slot_open_prefix(
    input: SchedulerInput,
    es: Seq<PlacedEntry>,
    k: int,
    n: Need,
    lid: i64,
    day: Seq<char>,
    slot: i64,
)
    requires
        no_double_booking(es),
        0 <= k <= es.len(),
        slot_open(input, es, n, lid, day, slot),
    ensures
        slot_open(input, es.subrange(0, k), n, lid, day, slot),
{
    let pre = es.subrange(0, k);
    let ls = input.lecturers@;
    let rs = input.rooms@;
    let l = ls[lecturer_index(ls, lid)];
    lemma_day_load_prefix(es, k, lid, day);
    lemma_week_load_prefix(es, k, lid);
    assert forall|v: i64| #[trigger] lecturer_busy(pre, lid, day, v) implies lecturer_busy(es, lid, day, v) by {
        let i = choose|i: int| #![trigger pre[i]] 0 <= i < pre.len() && pre[i].lecturer_id == lid && pre[i].day@ == day && pre[i].time_slot == v;
        assert(es[i] == pre[i]);
    }
    assert(!lecturer_busy(pre, lid, day, slot));
    if batch_busy(pre, n.batch_id, day, slot) {
        let i = choose|i: int| #![trigger pre[i]] 0 <= i < pre.len() && pre[i].batch_id == n.batch_id && pre[i].day@ == day && pre[i].time_slot == slot;
        assert(es[i] == pre[i]);
    }
    let c = input.courses@[course_index(input.courses@, n.course_id)];
    let b = input.batches@[batch_index(input.batches@, n.batch_id)];
    let r = choose|r: int| 0 <= r < rs.len() && room_fits(#[trigger] rs[r], c, b, day) && !room_busy(es, rs[r].id, day, slot);
    if room_busy(pre, rs[r].id, day, slot) {
        let i = choose|i: int| #![trigger pre[i]] 0 <= i < pre.len() && pre[i].room_id == rs[r].id && pre[i].day@ == day && pre[i].time_slot == slot;
        assert(es[i] == pre[i]);
    }
    let t1 = day_slots(pre, lid, day).push(slot);
    let t2 = day_slots(es, lid, day).push(slot);
    lemma_day_slots_distinct(es, lid, day);
    lemma_day_slots_contains(es, lid, day, slot);
    let sd = day_slots(es, lid, day);
    assert(distinct_slots(t2)) by {
        assert forall|i: int, j: int| 0 <= i < t2.len() && 0 <= j < t2.len() && i != j implies #[trigger] t2[i] != #[trigger] t2[j] by {
            if i == t2.len() - 1 {
                assert(sd[j] == t2[j]);
                assert(sd.contains(t2[j]));
            } else if j == t2.len() - 1 {
                assert(sd[i] == t2[i]);
                assert(sd.contains(t2[i]));
            } else {
                assert(sd[i] == t2[i] && sd[j] == t2[j]);
            }
        }
    }
    assert forall|v: i64| #[trigger] t1.contains(v) implies t2.contains(v) by {
        if v == slot {
            assert(t2[t2.len() - 1] == slot);
        } else {
            let i = choose|i: int| 0 <= i < t1.len() && t1[i] == v;
            let sp = day_slots(pre, lid, day);
            assert(sp[i] == v);
            assert(sp.contains(v));
            lemma_day_slots_contains(pre, lid, day, v);
            lemma_day_slots_contains(es, lid, day, v);
            let m = choose|m: int| 0 <= m < sd.len() && sd[m] == v;
            assert(t2[m] == v);
        }
    }
    if exceeds_run(sort_slots(t1), l.max_consecutive_hours) {
        lemma_exceeds_run_grows(t1, t2, l.max_consecutive_hours);
    }
}

/// The weekly-limit reason.
pub fn weekly_max_text(name: &String, max: i64) -> (r: String)
    ensures
        r@ == weekly_max_reason(name@, max),
{
    let mut r = String::from_str("Lecturer '");
    r.append(name.as_str());
    r.append("' reached weekly max (");
    let m = int_to_string(max);
    r.append(m.as_str());
    r.append(" h)");
    r
}

/// The partial-placement reason.
pub fn partial_text(placed: i64, hours: i64) -> (r: String)
    ensures
        r@ == partial_reason(placed as int, hours as int),
{
    let mut r = String::from_str("Could only place ");
    let p = int_to_string(placed);
    r.append(p.as_str());
    r.append("/");
    let h = int_to_string(hours);
    r.append(h.as_str());
    r.append(" sessions — no valid slot/room for remaining");
    r
}

/// An unscheduled item for a batch and a course.
pub(crate) fn report(batch: &Batch, course: &Course, hours: i64, reason: String) -> (u: UnscheduledItem)
    ensures
        u.batch_name@ == batch.name@,
        u.course_code@ == course.code@,
        u.course_name@ == course.name@,
        u.hours_needed == hours,
        u.reason@ == reason@,
{
    UnscheduledItem {
        batch_name: batch.name.clone(),
        course_code: course.code.clone(),
        course_name: course.name.clone(),
        hours_needed: hours,
        reason,
    }
}

/// The greedy choice for the need, by the lecturer of its course (see
/// `greedy_pick`).
pub open spec fn greedy_pick_need(
    input: SchedulerInput,
    days: Seq<Seq<char>>,
    n: Need,
    base: Seq<PlacedEntry>,
    state: Seq<PlacedEntry>,
    e: PlacedEntry,
) -> bool {
    match input.courses@[course_index(input.courses@, n.course_id)].lecturer_id {
        Some(lid) => greedy_pick(input, days, n, lid, base, state, e),
        None => false,
    }
}

/// The key a candidate carries is the `rank_key` of its day and slot.
proof fn lemma_choice_key(
    input: SchedulerInput,
    days: Seq<Seq<char>>,
    base: Seq<PlacedEntry>,
    n: Need,
    lid: i64,
    x: SlotChoice,
)
    requires
        choice_ok(
            days,
            base,
            n.batch_id,
            input.courses@[course_index(input.courses@, n.course_id)].class_type@,
            opt_text(input.lecturers@[lecturer_index(input.lecturers@, lid)].preferred_slots_json),
            x,
        ),
    ensures
        rank_key(input, days, base, n, lid, days[x.day as int], x.slot) == (x.load as int, x.penalty as int, x.rank as int, x.slot as int),
{
    lemma_first_index(days, days[x.day as int], x.rank as int);
}

/// When every candidate before position `p` of the ranked list is closed,
/// no working day and slot that ranks before candidate `p` is open.
proof fn lemma_pick_is_first(
    input: SchedulerInput,
    days: Seq<Seq<char>>,
    base: Seq<PlacedEntry>,
    n: Need,
    lid: i64,
    cands: Seq<SlotChoice>,
    es: Seq<PlacedEntry>,
    p: int,
)
    requires
        0 <= p < cands.len(),
        forall|k: int| 0 <= k < cands.len() ==> choice_ok(
            days,
            base,
            n.batch_id,
            input.courses@[course_index(input.courses@, n.course_id)].class_type@,
            opt_text(input.lecturers@[lecturer_index(input.lecturers@, lid)].preferred_slots_json),
            #[trigger] cands[k],
        ),
        forall|d: int, t: int| 0 <= d < days.len() && 0 <= t < 8 ==> #[trigger] covers(cands, d, t),
        forall|a: int, b: int| 0 <= a <= b < cands.len() ==> choice_le(#[trigger] cands[a], #[trigger] cands[b]),
        forall|k: int| 0 <= k < p ==> !slot_open(input, es, n, lid, days[#[trigger] cands[k].day as int], cands[k].slot),
    ensures
        forall|d: int, s: i64|
            0 <= d < days.len() && is_time_slot(s) && key_lt(
                #[trigger] rank_key(input, days, base, n, lid, days[d], s),
                rank_key(input, days, base, n, lid, days[cands[p].day as int], cands[p].slot),
            ) ==> !slot_open(input, es, n, lid, days[d], s),
{
    lemma_choice_key(input, days, base, n, lid, cands[p]);
    assert forall|d: int, s: i64|
        0 <= d < days.len() && is_time_slot(s) && key_lt(
            #[trigger] rank_key(input, days, base, n, lid, days[d], s),
            rank_key(input, days, base, n, lid, days[cands[p].day as int], cands[p].slot),
        ) implies !slot_open(input, es, n, lid, days[d], s) by {
        assert(covers(cands, d, s as int));
        let j = choose|j: int| 0 <= j < cands.len() && #[trigger] cands[j].day == d && cands[j].slot == s;
        lemma_choice_key(input, days, base, n, lid, cands[j]);
        if j >= p {
            assert(choice_le(cands[p], cands[j]));
        }
        assert(!slot_open(input, es, n, lid, days[cands[j].day as int], cands[j].slot));
    }
}

/// Once the lecturer is at the weekly limit and every candidate after the
/// need's last class failed the checks made before that limit, no working
/// day and slot ranked after that class passes them.
proof fn lemma_scan_after(
    input: SchedulerInput,
    days: Seq<Seq<char>>,
    base: Seq<PlacedEntry>,
    n: Need,
    lid: i64,
    cands: Seq<SlotChoice>,
    es: Seq<PlacedEntry>,
    last: int,
)
    requires
        forall|k: int| 0 <= k < cands.len() ==> choice_ok(
            days,
            base,
            n.batch_id,
            input.courses@[course_index(input.courses@, n.course_id)].class_type@,
            opt_text(input.lecturers@[lecturer_index(input.lecturers@, lid)].preferred_slots_json),
            #[trigger] cands[k],
        ),
        forall|d: int, t: int| 0 <= d < days.len() && 0 <= t < 8 ==> #[trigger] covers(cands, d, t),
        forall|a: int, b: int| 0 <= a <= b < cands.len() ==> choice_le(#[trigger] cands[a], #[trigger] cands[b]),
        -1 <= last < cands.len(),
        es.len() >= base.len(),
        es.len() == base.len() <==> last == -1,
        es.len() > base.len() ==> (0 <= last && days[cands[last].day as int] == es.last().day@ && cands[last].slot
            == es.last().time_slot),
        week_load(es, lid) >= input.lecturers@[lecturer_index(input.lecturers@, lid)].max_hours_per_week,
        forall|k: int| last < k < cands.len() ==> !scan_passes(
            input.lecturers@[lecturer_index(input.lecturers@, lid)],
            lid,
            es,
            days[#[trigger] cands[k].day as int],
            cands[k].slot,
        ) || week_load(es, lid) < input.lecturers@[lecturer_index(input.lecturers@, lid)].max_hours_per_week,
    ensures
        scan_closed_after(input, days, n, lid, base, es),
{
    assert forall|d: int, s: i64|
        0 <= d < days.len() && is_time_slot(s) && (es.len() == base.len() || key_lt(
            rank_key(input, days, base, n, lid, es.last().day@, es.last().time_slot),
            rank_key(input, days, base, n, lid, days[d], s),
        )) implies #[trigger] scan_closed_at(input, days, n, lid, base, es, d, s) by {
        assert(covers(cands, d, s as int));
        let j = choose|j: int| 0 <= j < cands.len() && #[trigger] cands[j].day == d && cands[j].slot == s;
        lemma_choice_key(input, days, base, n, lid, cands[j]);
        if last >= 0 {
            lemma_choice_key(input, days, base, n, lid, cands[last]);
            assert(es.len() != base.len());
            let kl = rank_key(input, days, base, n, lid, es.last().day@, es.last().time_slot);
            assert(kl == rank_key(input, days, base, n, lid, days[cands[last].day as int], cands[last].slot));
            assert(key_lt(kl, rank_key(input, days, base, n, lid, days[d], s)));
            assert(days[cands[j].day as int] == days[d]);
            if j <= last {
                assert(choice_le(cands[j], cands[last]));
                assert(false);
            }
        }
        assert(last < j);
        assert(days[cands[j].day as int] == days[d]);
        assert(!scan_passes(
            input.lecturers@[lecturer_index(input.lecturers@, lid)],
            lid,
            es,
            days[cands[j].day as int],
            cands[j].slot,
        ));
        assert(!scan_passes(input.lecturers@[lecturer_index(input.lecturers@, lid)], lid, es, days[d], s));
    }
    assert(scan_closed_after(input, days, n, lid, base, es));
}

/// Places the sessions of one need greedily, in the ranked order of its
/// candidates, and reports what could not be placed.
fn place_need(
    input: &SchedulerInput,
    days: &Vec<String>,
    need: Need,
    entries: &mut Vec<PlacedEntry>,
    unscheduled: &mut Vec<UnscheduledItem>,
)
    requires
        days.deep_view() == effective_days(input.working_days.deep_view()),
        need_ok(*input, need),
        respects_constraints(*input, days.deep_view(), old(entries)@),
    ensures
        respects_constraints(*input, days.deep_view(), final(entries)@),
        final(entries)@.len() >= old(entries)@.len(),
        final(entries)@.subrange(0, old(entries)@.len() as int) == old(entries)@,
        final(unscheduled)@ == old(unscheduled)@ || (final(unscheduled)@ == old(unscheduled)@.push(
            final(unscheduled)@.last(),
        ) && item_explains(*input, need, final(unscheduled)@.last()) && weekly_report_true(
            *input,
            need,
            final(unscheduled)@.last(),
            final(entries)@,
        ) && partial_report_true(*input, days.deep_view(), need, final(unscheduled)@.last(), final(entries)@)),
        final(entries)@.len() - old(entries)@.len() + hours_sum(final(unscheduled)@) - hours_sum(old(unscheduled)@)
            == expected_hours(*input, need),
        forall|k: int| old(entries)@.len() <= k < final(entries)@.len() ==> greedy_pick_need(
            *input,
            days.deep_view(),
            need,
            old(entries)@,
            final(entries)@.subrange(0, k),
            #[trigger] final(entries)@[k],
        ),
        final(unscheduled)@ != old(unscheduled)@ ==> partial_not_weekly(
            *input,
            days.deep_view(),
            need,
            final(unscheduled)@.last(),
            old(entries)@,
            final(entries)@,
        ),
        unstaffed(*input, need) ==> final(unscheduled)@.len() == old(unscheduled)@.len() + 1,
{
    let ghost dv = days.deep_view();
    let ghost cs = input.courses@;
    let ghost ls = input.lecturers@;
    let ghost bs = input.batches@;
    let ghost e0 = entries@;
    let ghost u0 = unscheduled@;
    assert(entries@.subrange(0, e0.len() as int) =~= e0);
    let bi = match find_batch(&input.batches, need.batch_id) {
        Some(b) => b,
        None => return ,
    };
    let ci = match find_course(&input.courses, need.course_id) {
        Some(c) => c,
        None => return ,
    };
    let batch = &input.batches[bi];
    let course = &input.courses[ci];
    let lid = match course.lecturer_id {
        Some(l) => l,
        None => {
            let u = report(batch, course, need.hours, String::from_str("No lecturer assigned to course"));
            unscheduled.push(u);
            assert(unscheduled@.drop_last() =~= u0);
            return ;
        },
    };
    let li = match find_lecturer(&input.lecturers, lid) {
        Some(l) => l,
        None => {
            let u = report(batch, course, need.hours, String::from_str("Assigned lecturer not found"));
            unscheduled.push(u);
            assert(unscheduled@.drop_last() =~= u0);
            return ;
        },
    };
    let lec = &input.lecturers[li];
    let cands = rank_candidates(days, entries, need.batch_id, &course.class_type, &lec.preferred_slots_json);
    let ghost ce = entries@;
    let ghost mut last: int = -1;
    let mut placed: i64 = 0;
    let mut i: usize = 0;
    while i < cands.len()
        invariant
            dv == days.deep_view(),
            dv == effective_days(input.working_days.deep_view()),
            cs == input.courses@,
            ls == input.lecturers@,
            bs == input.batches@,
            bi < bs.len(),
            bi as int == batch_index(bs, need.batch_id),
            *batch == bs[bi as int],
            ci < cs.len(),
            ci as int == course_index(cs, need.course_id),
            *course == cs[ci as int],
            course.lecturer_id == Some(lid),
            li < ls.len(),
            li as int == lecturer_index(ls, lid),
            *lec == ls[li as int],
            need_ok(*input, need),
            forall|k: int| 0 <= k < cands@.len() ==>
                choice_ok(dv, ce, need.batch_id, course.class_type@, opt_text(lec.preferred_slots_json), #[trigger] cands@[k]),
            i <= cands@.len(),
            respects_constraints(*input, dv, entries@),
            entries@.len() == e0.len() + placed,
            entries@.subrange(0, e0.len() as int) == e0,
            0 <= placed <= i,
            need.hours > 0 ==> placed <= need.hours,
            need.hours <= 0 ==> placed == 0,
            unscheduled@ == u0,
            e0 == old(entries)@,
            u0 == old(unscheduled)@,
            forall|k: int| 0 <= k < i ==> !slot_open(*input, entries@, need, lid, dv[#[trigger] cands@[k].day as int], cands@[k].slot),
            ce == e0,
            forall|d: int, t: int| 0 <= d < dv.len() && 0 <= t < 8 ==> #[trigger] covers(cands@, d, t),
            forall|a: int, b: int| 0 <= a <= b < cands@.len() ==> choice_le(#[trigger] cands@[a], #[trigger] cands@[b]),
            forall|k: int| e0.len() <= k < entries@.len() ==> greedy_pick(
                *input,
                dv,
                need,
                lid,
                e0,
                entries@.subrange(0, k),
                #[trigger] entries@[k],
            ),
            -1 <= last < i,
            entries@.len() == e0.len() <==> last == -1,
            entries@.len() > e0.len() ==> (0 <= last && dv[cands@[last].day as int] == entries@.last().day@
                && cands@[last].slot == entries@.last().time_slot),
            forall|k: int| last < k < i ==> !scan_passes(*lec, lid, entries@, dv[#[trigger] cands@[k].day as int], cands@[k].slot)
                || week_load(entries@, lid) < lec.max_hours_per_week,
        ensures
            i == cands@.len() || placed >= need.hours,
        decreases cands@.len() - i,
    {
        if placed >= need.hours {
            break;
        }
        let c = cands[i];
        assert(choice_ok(dv, ce, need.batch_id, course.class_type@, opt_text(lec.preferred_slots_json), cands@[i as int]));
        i = i + 1;
        let day = &days[c.day];
        let slot = c.slot;
        assert(day@ == dv[c.day as int]);
        if !list_contains(lec.available_days.as_str(), day.as_str()) {
            continue;
        }
        if is_blacked_out(&lec.blackout_json, day.as_str(), slot) {
            continue;
        }
        let dl = count_day_load(entries, lid, day);
        if (dl as i128) >= (lec.max_hours_per_day as i128) {
            continue;
        }
        let wl = count_week_load(entries, lid);
        if (wl as i128) >= (lec.max_hours_per_week as i128) {
            let r = weekly_max_text(&lec.name, lec.max_hours_per_week);
            let u = report(batch, course, need.hours - placed, r);
            proof {
                lemma_reasons_differ(placed as int, need.hours as int, lec.name@, lec.max_hours_per_week);
            }
            unscheduled.push(u);
            assert(unscheduled@.drop_last() =~= u0);
            return ;
        }
        let occ = collect_day_slots(entries, lid, day);
        if would_exceed_consecutive(occ.as_slice(), slot, lec.max_consecutive_hours) {
            continue;
        }
        if lecturer_is_busy(entries, lid, day, slot) {
            continue;
        }
        if batch_is_busy(entries, need.batch_id, day, slot) {
            continue;
        }
        let ri = match find_room(&input.rooms, course, batch, day, slot, entries) {
            Some(r) => r,
            None => continue,
        };
        let e = PlacedEntry {
            course_id: need.course_id,
            lecturer_id: lid,
            room_id: input.rooms[ri].id,
            batch_id: need.batch_id,
            day: day.clone(),
            time_slot: slot,
            class_type: course.class_type.clone(),
            week_parity: if need.biweekly { 1 } else { 0 },
        };
        proof {
            assert(dv[c.day as int] == e.day@);
            assert(dv.contains(e.day@));
            assert(input.rooms@[ri as int].id == e.room_id);
            lemma_place_entry(*input, dv, entries@, e);
            assert(slot_open(*input, entries@, need, lid, e.day@, slot));
            lemma_pick_is_first(*input, dv, e0, need, lid, cands@, entries@, (i - 1) as int);
            assert(greedy_pick(*input, dv, need, lid, e0, entries@, e));
        }
        let ghost before = entries@;
        entries.push(e);
        assert(entries@.subrange(0, e0.len() as int) =~= before.subrange(0, e0.len() as int));
        proof {
            assert(entries@[before.len() as int] == e);
            assert(batch_busy(entries@, need.batch_id, e.day@, slot));
            assert(entries@.subrange(0, before.len() as int) =~= before);
            assert forall|k: int| 0 <= k < i implies !slot_open(*input, entries@, need, lid, dv[#[trigger] cands@[k].day as int], cands@[k].slot) by {
                if k < i - 1 {
                    if slot_open(*input, entries@, need, lid, dv[cands@[k].day as int], cands@[k].slot) {
                        lemma_slot_open_prefix(*input, entries@, before.len() as int, need, lid, dv[cands@[k].day as int], cands@[k].slot);
                    }
                }
            }
            assert forall|k: int| e0.len() <= k < entries@.len() implies greedy_pick(
                *input,
                dv,
                need,
                lid,
                e0,
                entries@.subrange(0, k),
                #[trigger] entries@[k],
            ) by {
                if k < before.len() {
                    assert(entries@.subrange(0, k) =~= before.subrange(0, k));
                    assert(entries@[k] == before[k]);
                } else {
                    assert(entries@.subrange(0, k) =~= before);
                }
            }
            last = i - 1;
        }
        placed = placed + 1;
    }
    if placed < need.hours {
        proof {
            lemma_reasons_differ(placed as int, need.hours as int, lec.name@, lec.max_hours_per_week);
            assert forall|d: int, s: i64| 0 <= d < dv.len() && is_time_slot(s) implies !#[trigger] slot_open(*input, entries@, need, lid, dv[d], s) by {
                assert(covers(cands@, d, s as int));
                let k = choose|k: int| 0 <= k < cands@.len() && #[trigger] cands@[k].day == d && cands@[k].slot == s;
                assert(!slot_open(*input, entries@, need, lid, dv[cands@[k].day as int], cands@[k].slot));
            }
            assert(lecturer_index(ls, lid) == li);
            if week_load(entries@, lid) >= lec.max_hours_per_week {
                lemma_scan_after(*input, dv, e0, need, lid, cands@, entries@, last);
            }
        }
        let r = partial_text(placed, need.hours);
        let u = report(batch, course, need.hours - placed, r);
        unscheduled.push(u);
        assert(unscheduled@.drop_last() =~= u0);
        proof {
            let uu = unscheduled@.last();
            assert(uu == u);
            assert(need.hours - uu.hours_needed == placed);
            assert(lecturer_index(ls, lid) == li);
            assert(partial_not_weekly(*input, dv, need, uu, e0, entries@));
        }
    }
}

// ── The scheduler ──────────────────────────────────────────────────────────

/// The timetable is built need by need: the classes of need `k` are
/// `es[starts[k]..starts[k + 1]]`; each is the greedy choice given the
/// classes before it and the ranking made when the need began; the classes
/// of a need plus the hours of its report (if any) are the hours it is owed;
/// and a partial-placement report is given only where the weekly limit was
/// not what stopped the need.
pub open spec fn greedy_blocks(
    input: SchedulerInput,
    days: Seq<Seq<char>>,
    needs: Seq<Need>,
    es: Seq<PlacedEntry>,
    items: Seq<UnscheduledItem>,
    owner: Seq<int>,
    starts: Seq<int>,
) -> bool {
    &&& starts.len() == needs.len() + 1
    &&& starts[0] == 0
    &&& starts[needs.len() as int] == es.len()
    &&& forall|k: int| 0 <= k < needs.len() ==> #[trigger] starts[k] <= starts[k + 1]
    &&& forall|k: int, m: int|
        0 <= k < needs.len() && starts[k] <= m < starts[k + 1] ==> greedy_pick_need(
            input,
            days,
            needs[k],
            es.subrange(0, starts[k]),
            es.subrange(0, m),
            #[trigger] es[m],
        ) && #[trigger] starts[k] >= 0
    &&& forall|k: int|
        0 <= k < needs.len() ==> #[trigger] block_accounts(input, needs[k], starts[k + 1] - starts[k], items, owner, k)
    &&& forall|u: int|
        #![trigger owner[u]]
        0 <= u < items.len() ==> partial_not_weekly(
            input,
            days,
            needs[owner[u]],
            items[u],
            es.subrange(0, starts[owner[u]]),
            es.subrange(0, starts[owner[u] + 1]),
        )
}

/// The need's batch and course exist, but its course has no lecturer or an
/// unknown one: such a need is always reported, whatever it owes.
pub open spec fn unstaffed(input: SchedulerInput, n: Need) -> bool {
    let cs = input.courses@;
    let ci = course_index(cs, n.course_id);
    &&& 0 <= batch_index(input.batches@, n.batch_id)
    &&& 0 <= ci
    &&& match cs[ci].lecturer_id {
        None => true,
        Some(lid) => lecturer_index(input.lecturers@, lid) < 0,
    }
}

/// Need `k` got `placed` classes, and those plus the hours of its report
/// (if any) are the hours it is owed; a need without a known lecturer has a
/// report.
pub open spec fn block_accounts(
    input: SchedulerInput,
    n: Need,
    placed: int,
    items: Seq<UnscheduledItem>,
    owner: Seq<int>,
    k: int,
) -> bool {
    &&& forall|u: int| 0 <= u < items.len() && #[trigger] owner[u] == k ==> placed + items[u].hours_needed == expected_hours(input, n)
    &&& (forall|u: int| 0 <= u < items.len() ==> #[trigger] owner[u] != k) ==> placed == expected_hours(input, n)
    &&& unstaffed(input, n) ==> exists|u: int| 0 <= u < items.len() && #[trigger] owner[u] == k
}

/// Placing one more need keeps the block structure of the timetable.
proof fn lemma_blocks_step(
    input: SchedulerInput,
    days: Seq<Seq<char>>,
    needs: Seq<Need>,
    n: Need,
    e0: Seq<PlacedEntry>,
    e1: Seq<PlacedEntry>,
    u0: Seq<UnscheduledItem>,
    u1: Seq<UnscheduledItem>,
    o0: Seq<int>,
    o1: Seq<int>,
    starts: Seq<int>,
)
    requires
        greedy_blocks(input, days, needs, e0, u0, o0, starts),
        o0.len() == u0.len(),
        forall|j: int| 0 <= j < o0.len() ==> 0 <= #[trigger] o0[j] < needs.len(),
        e1.len() >= e0.len(),
        e1.subrange(0, e0.len() as int) == e0,
        forall|m: int| e0.len() <= m < e1.len() ==> greedy_pick_need(input, days, n, e0, e1.subrange(0, m), #[trigger] e1[m]),
        e1.len() - e0.len() + hours_sum(u1) - hours_sum(u0) == expected_hours(input, n),
        u1 == u0 ==> o1 == o0,
        unstaffed(input, n) ==> u1 != u0,
        u1 != u0 ==> (u1 == u0.push(u1.last()) && o1 == o0.push(needs.len() as int) && partial_not_weekly(
            input,
            days,
            n,
            u1.last(),
            e0,
            e1,
        )),
    ensures
        greedy_blocks(input, days, needs.push(n), e1, u1, o1, starts.push(e1.len() as int)),
{
    let k = needs.len() as int;
    let ns = needs.push(n);
    let st = starts.push(e1.len() as int);
    assert(st[k] == e0.len());
    assert forall|j: int| 0 <= j < ns.len() implies #[trigger] st[j] <= st[j + 1] by {
        if j < k {
            assert(starts[j] <= starts[j + 1]);
        }
    }
    assert forall|j: int, m: int|
        0 <= j < ns.len() && st[j] <= m < st[j + 1] implies greedy_pick_need(
            input,
            days,
            ns[j],
            e1.subrange(0, st[j]),
            e1.subrange(0, m),
            #[trigger] e1[m],
        ) && #[trigger] st[j] >= 0 by {
        if j < k {
            assert(starts[j] <= starts[j + 1] <= starts[k]) by {
                assert forall|a: int, b: int| 0 <= a <= b <= k implies starts[a] <= starts[b] by {
                    lemma_starts_monotone(starts, k, a, b);
                }
            }
            assert(greedy_pick_need(input, days, needs[j], e0.subrange(0, starts[j]), e0.subrange(0, m), e0[m]) && starts[j] >= 0);
            assert(e1.subrange(0, starts[j]) =~= e0.subrange(0, starts[j]));
            assert(e1.subrange(0, m) =~= e0.subrange(0, m));
            assert(e1[m] == e0[m]);
        } else {
            assert(e1.subrange(0, st[j]) =~= e0);
            assert(starts[0] == 0);
            lemma_starts_monotone(starts, k, 0, k);
        }
    }
    assert forall|j: int| 0 <= j < ns.len() implies #[trigger] block_accounts(input, ns[j], st[j + 1] - st[j], u1, o1, j) by {
        if j < k {
            assert(block_accounts(input, needs[j], starts[j + 1] - starts[j], u0, o0, j));
            if u1 != u0 {
                assert forall|u: int| 0 <= u < u1.len() && #[trigger] o1[u] == j implies st[j + 1] - st[j] + u1[u].hours_needed
                    == expected_hours(input, ns[j]) by {
                    if u < u0.len() {
                        assert(o1[u] == o0[u] && u1[u] == u0[u]);
                    } else {
                        assert(o1[u] == k);
                    }
                }
                if forall|u: int| 0 <= u < u1.len() ==> #[trigger] o1[u] != j {
                    assert forall|u: int| 0 <= u < u0.len() implies #[trigger] o0[u] != j by {
                        assert(o1[u] == o0[u]);
                    }
                }
                if unstaffed(input, ns[j]) {
                    let w = choose|u: int| 0 <= u < u0.len() && #[trigger] o0[u] == j;
                    assert(o1[w] == o0[w]);
                }
            }
        } else {
            if u1 == u0 {
                assert forall|u: int| 0 <= u < u1.len() implies #[trigger] o1[u] != j by {
                    assert(o0[u] < k);
                }
            } else {
                assert(u1.drop_last() =~= u0);
                assert forall|u: int| 0 <= u < u1.len() && #[trigger] o1[u] == j implies st[j + 1] - st[j] + u1[u].hours_needed
                    == expected_hours(input, ns[j]) by {
                    if u < u0.len() {
                        assert(o1[u] == o0[u]);
                        assert(o0[u] < k);
                    }
                }
                assert(o1[u0.len() as int] == j);
            }
            if unstaffed(input, ns[j]) {
                assert(u1 != u0);
                assert(o1[u0.len() as int] == j);
            }
        }
    }
    assert forall|u: int|
        #![trigger o1[u]]
        0 <= u < u1.len() implies partial_not_weekly(
            input,
            days,
            ns[o1[u]],
            u1[u],
            e1.subrange(0, st[o1[u]]),
            e1.subrange(0, st[o1[u] + 1]),
        ) by {
        if u < u0.len() {
            let j = o0[u];
            assert(o1[u] == j && u1[u] == u0[u]);
            lemma_starts_monotone(starts, k, j, j + 1);
            lemma_starts_monotone(starts, k, j + 1, k);
            lemma_starts_monotone(starts, k, 0, j);
            assert(starts[0] == 0);
            assert(e1.subrange(0, st[j]) =~= e0.subrange(0, starts[j]));
            assert(e1.subrange(0, st[j + 1]) =~= e0.subrange(0, starts[j + 1]));
        } else {
            assert(o1[u] == k);
            assert(e1.subrange(0, st[k]) =~= e0);
            assert(e1.subrange(0, st[k + 1]) =~= e1);
        }
    }
}

/// Block starts never decrease.
proof fn lemma_starts_monotone(starts: Seq<int>, k: int, a: int, b: int)
    requires
        starts.len() == k + 1,
        forall|j: int| 0 <= j < k ==> #[trigger] starts[j] <= starts[j + 1],
        0 <= a <= b <= k,
    ensures
        starts[a] <= starts[b],
    decreases b - a,
{
    if a < b {
        lemma_starts_monotone(starts, k, a + 1, b);
        assert(starts[a] <= starts[a + 1]);
    }
}

/// Builds a timetable greedily. The needs (one per course of each batch;
/// biweekly courses need half their hours, rounded up) are placed most
/// sessions first; each session goes to the best-ranked (day, slot) of the
/// working days that passes every hard constraint, and what cannot be
/// placed is reported.
///
/// The timetable respects every hard constraint; every session a need owes
/// is either placed or reported; each report names a need and says why, and
/// is true of the final timetable: a weekly-limit report names a lecturer
/// who is at the limit, and after a partial-placement report no working day
/// and slot is open for another class of the need.
pub fn generate(input: &SchedulerInput) -> (r: ScheduleResult)
    requires
        sessions_fit(*input),
    ensures
        respects_constraints(*input, effective_days(input.working_days.deep_view()), r.entries@),
        r.entries@.len() + hours_sum(r.unscheduled@) == expected_total(*input, needs_of(*input)),
        r.unscheduled@.len() <= needs_of(*input).len(),
        exists|owner: Seq<int>, starts: Seq<int>|
            reports_follow_needs(*input, effective_days(input.working_days.deep_view()), ordered_needs(*input), r.unscheduled@, r.entries@, owner)
            && greedy_blocks(*input, effective_days(input.working_days.deep_view()), ordered_needs(*input), r.entries@, r.unscheduled@, owner, starts),
{
    let days = resolve_days(&input.working_days);
    let needs = build_needs(input);
    let order = order_need_list(&needs);
    proof {
        lemma_order_needs_elems(needs@);
        lemma_total_order(*input, needs@);
        assert forall|i: int| 0 <= i < order@.len() implies need_ok(*input, #[trigger] order@[i]) by {
            let m = choose|m: int| 0 <= m < needs@.len() && needs@[m] == order@[i];
            assert(need_ok(*input, needs@[m]));
        }
    }
    let mut entries: Vec<PlacedEntry> = Vec::new();
    let mut unscheduled: Vec<UnscheduledItem> = Vec::new();
    let mut k: usize = 0;
    let ghost mut owners: Seq<int> = Seq::empty();
    let ghost mut starts: Seq<int> = seq![0int];
    assert(order@.subrange(0, 0) =~= Seq::<Need>::empty());
    while k < order.len()
        invariant
            days.deep_view() == effective_days(input.working_days.deep_view()),
            order@ == ordered_needs(*input),
            order@.len() == needs_of(*input).len(),
            forall|i: int| 0 <= i < order@.len() ==> need_ok(*input, #[trigger] order@[i]),
            k <= order@.len(),
            respects_constraints(*input, days.deep_view(), entries@),
            entries@.len() + hours_sum(unscheduled@) == expected_total(*input, order@.subrange(0, k as int)),
            unscheduled@.len() <= k,
            reports_follow_needs(*input, days.deep_view(), order@, unscheduled@, entries@, owners),
            forall|j: int| 0 <= j < owners.len() ==> #[trigger] owners[j] < k,
            greedy_blocks(*input, days.deep_view(), order@.subrange(0, k as int), entries@, unscheduled@, owners, starts),
        decreases order@.len() - k,
    {
        let n = order[k];
        let ghost u_before = unscheduled@;
        let ghost e_before = entries@;
        let ghost e_len = entries@.len();
        let ghost o_before = owners;
        place_need(input, &days, n, &mut entries, &mut unscheduled);
        proof {
            assert(order@.subrange(0, k + 1).drop_last() =~= order@.subrange(0, k as int));
            assert(order@.subrange(0, k + 1).last() == n);
            assert forall|j: int| 0 <= j < u_before.len() implies weekly_report_true(
                *input,
                order@[owners[j]],
                u_before[j],
                entries@,
            ) by {
                assert(weekly_report_true(*input, order@[owners[j]], u_before[j], e_before));
                let cs = input.courses@;
                let ci = course_index(cs, order@[owners[j]].course_id);
                if ci >= 0 {
                    if let Some(lid) = cs[ci].lecturer_id {
                        lemma_week_load_prefix(entries@, e_before.len() as int, lid);
                    }
                }
            }
            assert forall|j: int| 0 <= j < u_before.len() implies partial_report_true(
                *input,
                days.deep_view(),
                order@[owners[j]],
                u_before[j],
                entries@,
            ) by {
                let dv = days.deep_view();
                let nj = order@[owners[j]];
                assert(partial_report_true(*input, dv, nj, u_before[j], e_before));
                let cs = input.courses@;
                let ci = course_index(cs, nj.course_id);
                if ci >= 0 {
                    if let Some(lid) = cs[ci].lecturer_id {
                        if lecturer_index(input.lecturers@, lid) >= 0 && u_before[j].reason@ == partial_reason(
                            nj.hours - u_before[j].hours_needed,
                            nj.hours as int,
                        ) {
                            assert forall|d: int, s: i64| 0 <= d < dv.len() && is_time_slot(s) implies !#[trigger] slot_open(
                                *input,
                                entries@,
                                nj,
                                lid,
                                dv[d],
                                s,
                            ) by {
                                assert(!slot_open(*input, e_before, nj, lid, dv[d], s));
                                if slot_open(*input, entries@, nj, lid, dv[d], s) {
                                    lemma_slot_open_prefix(*input, entries@, e_before.len() as int, nj, lid, dv[d], s);
                                }
                            }
                        }
                    }
                }
            }
            if unscheduled@ != u_before {
                assert(unscheduled@.drop_last() =~= u_before);
                owners = owners.push(k as int);
                assert forall|j: int|
                    #![trigger owners[j]]
                    0 <= j < unscheduled@.len() implies 0 <= owners[j] < order@.len() && item_explains(
                        *input,
                        order@[owners[j]],
                        unscheduled@[j],
                    ) && weekly_report_true(*input, order@[owners[j]], unscheduled@[j], entries@)
                        && partial_report_true(*input, days.deep_view(), order@[owners[j]], unscheduled@[j], entries@) by {
                    if j < u_before.len() {
                        assert(unscheduled@[j] == u_before[j]);
                    }
                }
            } else {
                assert forall|j: int|
                    #![trigger owners[j]]
                    0 <= j < unscheduled@.len() implies 0 <= owners[j] < order@.len() && item_explains(
                        *input,
                        order@[owners[j]],
                        unscheduled@[j],
                    ) && weekly_report_true(*input, order@[owners[j]], unscheduled@[j], entries@)
                        && partial_report_true(*input, days.deep_view(), order@[owners[j]], unscheduled@[j], entries@) by {
                }
            }
        }
        proof {
            assert forall|j: int| 0 <= j < o_before.len() implies 0 <= #[trigger] o_before[j] < order@.subrange(0, k as int).len() by {
            }
            lemma_blocks_step(
                *input,
                days.deep_view(),
                order@.subrange(0, k as int),
                n,
                e_before,
                entries@,
                u_before,
                unscheduled@,
                o_before,
                owners,
                starts,
            );
            assert(order@.subrange(0, k + 1) =~= order@.subrange(0, k as int).push(n));
            starts = starts.push(entries@.len() as int);
        }
        k = k + 1;
    }
    assert(order@.subrange(0, k as int) =~= order@);
    let r = ScheduleResult { entries, unscheduled };
    assert(reports_follow_needs(*input, days.deep_view(), ordered_needs(*input), r.unscheduled@, r.entries@, owners));
    assert(greedy_blocks(*input, days.deep_view(), ordered_needs(*input), r.entries@, r.unscheduled@, owners, starts));
    r
}

/// Lecturers' time of day counts in the greedy timetable: each class placed
/// for a need sits at a working day and slot whose class-type penalty plus
/// the lecturer's time-of-day penalty is no larger than that of any working
/// day and slot that was still open for the class and held as many of the
/// batch's classes when the need began. So a lecturer who asks for the
/// afternoon of a day is given an open afternoon slot of that day before
/// any of its morning slots (other things equal).
pub proof fn law_greedy_time_of_day(
    input: SchedulerInput,
    days: Seq<Seq<char>>,
    needs: Seq<Need>,
    es: Seq<PlacedEntry>,
    items: Seq<UnscheduledItem>,
    owner: Seq<int>,
    starts: Seq<int>,
    k: int,
    m: int,
    lid: i64,
    d: int,
    s: i64,
)
    requires
        greedy_blocks(input, days, needs, es, items, owner, starts),
        0 <= k < needs.len(),
        starts[k] <= m < starts[k + 1],
        input.courses@[course_index(input.courses@, needs[k].course_id)].lecturer_id == Some(lid),
        0 <= d < days.len(),
        is_time_slot(s),
        slot_open(input, es.subrange(0, m), needs[k], lid, days[d], s),
        batch_day_count(es.subrange(0, starts[k]), needs[k].batch_id, days[d])
            == batch_day_count(es.subrange(0, starts[k]), needs[k].batch_id, es[m].day@),
    ensures
        ({
            let ct = input.courses@[course_index(input.courses@, needs[k].course_id)].class_type@;
            let pref = opt_text(input.lecturers@[lecturer_index(input.lecturers@, lid)].preferred_slots_json);
            slot_penalty_spec(ct, es[m].time_slot) + preferred_penalty_spec(pref, es[m].day@, es[m].time_slot)
                <= slot_penalty_spec(ct, s) + preferred_penalty_spec(pref, days[d], s)
        }),
{
    let n = needs[k];
    let base = es.subrange(0, starts[k]);
    let state = es.subrange(0, m);
    let e = es[m];
    assert(greedy_pick_need(input, days, n, base, state, e) && starts[k] >= 0);
    assert(greedy_pick(input, days, n, lid, base, state, e));
    let ct = input.courses@[course_index(input.courses@, n.course_id)].class_type@;
    let pref = opt_text(input.lecturers@[lecturer_index(input.lecturers@, lid)].preferred_slots_json);
    if slot_penalty_spec(ct, s) + preferred_penalty_spec(pref, days[d], s)
        < slot_penalty_spec(ct, e.time_slot) + preferred_penalty_spec(pref, e.day@, e.time_slot) {
        assert(key_lt(rank_key(input, days, base, n, lid, days[d], s), rank_key(input, days, base, n, lid, e.day@, e.time_slot)));
        assert(!slot_open(input, state, n, lid, days[d], s));
    }
}

/// The greedy timetable spreads a batch across the week: each class placed
/// for a need goes to a day on which the batch had no more classes, when
/// the need began, than on any working day with a slot still open for the
/// class.
pub proof fn law_greedy_spreads_batch(
    input: SchedulerInput,
    days: Seq<Seq<char>>,
    needs: Seq<Need>,
    es: Seq<PlacedEntry>,
    items: Seq<UnscheduledItem>,
    owner: Seq<int>,
    starts: Seq<int>,
    k: int,
    m: int,
    lid: i64,
    d: int,
    s: i64,
)
    requires
        greedy_blocks(input, days, needs, es, items, owner, starts),
        0 <= k < needs.len(),
        starts[k] <= m < starts[k + 1],
        input.courses@[course_index(input.courses@, needs[k].course_id)].lecturer_id == Some(lid),
        0 <= d < days.len(),
        is_time_slot(s),
        slot_open(input, es.subrange(0, m), needs[k], lid, days[d], s),
    ensures
        batch_day_count(es.subrange(0, starts[k]), needs[k].batch_id, es[m].day@)
            <= batch_day_count(es.subrange(0, starts[k]), needs[k].batch_id, days[d]),
{
    let n = needs[k];
    let base = es.subrange(0, starts[k]);
    let state = es.subrange(0, m);
    let e = es[m];
    assert(greedy_pick_need(input, days, n, base, state, e) && starts[k] >= 0);
    assert(greedy_pick(input, days, n, lid, base, state, e));
    if batch_day_count(base, n.batch_id, days[d]) < batch_day_count(base, n.batch_id, e.day@) {
        assert(key_lt(rank_key(input, days, base, n, lid, days[d], s), rank_key(input, days, base, n, lid, e.day@, e.time_slot)));
        assert(!slot_open(input, state, n, lid, days[d], s));
    }
}

} // verus!
