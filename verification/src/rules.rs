//! Rules for a single (day, slot): slot preferences by class type, a
//! lecturer's preferred time of day, a lecturer's blackouts, and the limit
//! on consecutive teaching hours.

use vstd::prelude::*;
use crate::text::{chars_of, str_eq};

verus! {

// ── Class-type slot preference ───────────────────────────────────────────────

/// Penalty of a slot for a class type (lower is preferred): labs prefer
/// the afternoon (slots 4–7), tutorials the morning (slots 0–3), and other
/// classes avoid the first and the last slot of the day.
pub open spec fn slot_penalty_spec(class_type: Seq<char>, slot: i64) -> i64 {
    if class_type == "lab"@ {
        if slot >= 4 { 0 } else { 3 }
    } else if class_type == "tutorial"@ {
        if slot < 4 { 0 } else { 2 }
    } else {
        if slot == 0 || slot == 7 { 1 } else { 0 }
    }
}

/// Penalty of a slot for a class type (lower is preferred).
pub fn slot_penalty(class_type: &str, slot: i64) -> (p: i64)
    ensures
        p == slot_penalty_spec(class_type@, slot),
{
    if str_eq(class_type, "lab") {
        if slot >= 4 { 0 } else { 3 }
    } else if str_eq(class_type, "tutorial") {
        if slot < 4 { 0 } else { 2 }
    } else if slot == 0 || slot == 7 {
        1
    } else {
        0
    }
}

// ── JSON-encoded lecturer preferences ────────────────────────────────────────

/// The text of an optional string.
pub open spec fn opt_text(o: Option<String>) -> Option<Seq<char>> {
    match o {
        Some(s) => Some(s@),
        None => None,
    }
}

/// The object that `serde_json` reads from `text` as a map from strings to
/// strings, or `None` where `text` is not such an object.
pub uninterp spec fn json_string_map(text: Seq<char>) -> Option<Map<Seq<char>, Seq<char>>>;

/// The items of the JSON array that `serde_json` reads from `text`, each
/// item taken as: its `"day"` field when that is a string; whether its
/// `"slot"` field is null or absent; its `"slot"` field when that is an
/// integer that fits in `i64`. `None` where `text` is not a JSON array.
pub uninterp spec fn json_blackout_items(text: Seq<char>) -> Option<Seq<(Option<Seq<char>>, bool, Option<i64>)>>;

/// A list of key/value pairs holds exactly the entries of a map.
pub open spec fn pairs_list_map(ps: Seq<(Seq<char>, Seq<char>)>, m: Map<Seq<char>, Seq<char>>) -> bool {
    &&& forall|i: int| #![trigger ps[i]] 0 <= i < ps.len() ==> m.contains_key(ps[i].0) && m[ps[i].0] == ps[i].1
    &&& forall|k: Seq<char>| #[trigger] m.contains_key(k) ==> exists|i: int| 0 <= i < ps.len() && ps[i].0 == k
}

/// Calls `serde_json::from_str::<HashMap<String, String>>` and hands the
/// entries back as pairs. Claimed: the call succeeds exactly when
/// `json_string_map` is defined, and the pairs are then exactly its
/// entries. The order of the pairs (the map's iteration order) is not
/// stated.
#[verifier::external_body]
fn parse_string_map(text: &str) -> (r: Option<Vec<(String, String)>>)
    ensures
        (r is Some) == (json_string_map(text@) is Some),
        r matches Some(v) ==> json_string_map(text@) matches Some(m) && pairs_list_map(v.deep_view(), m),
{
    match serde_json::from_str::<std::collections::HashMap<String, String>>(text) {
        Ok(m) => Some(m.into_iter().collect()),
        Err(_) => None,
    }
}

/// Calls `serde_json::from_str::<Vec<serde_json::Value>>` and reads each
/// item's `"day"` field with `as_str` and its `"slot"` field with `is_null`
/// and `as_i64`. Claimed: the result is `json_blackout_items` of the text.
#[verifier::external_body]
fn parse_blackout_items(text: &str) -> (r: Option<Vec<(Option<String>, bool, Option<i64>)>>)
    ensures
        r.deep_view() == json_blackout_items(text@),
{
    let arr: Vec<serde_json::Value> = match serde_json::from_str(text) {
        Ok(a) => a,
        Err(_) => return None,
    };
    let mut out = Vec::new();
    for item in &arr {
        out.push((item["day"].as_str().map(String::from), item["slot"].is_null(), item["slot"].as_i64()));
    }
    Some(out)
}

/// Penalty for placing a class against the lecturer's preferred time of day
/// (`{"Mon":"morning","Tue":"afternoon",...}`): 2 when the day asks for the
/// morning and the slot is in the afternoon (slot 4 or later) or the other
/// way round, else 0. Missing, empty or unreadable JSON gives 0.
pub open spec fn preferred_penalty_spec(json: Option<Seq<char>>, day: Seq<char>, slot: i64) -> i64 {
    match json {
        Some(t) => if t.len() == 0 {
            0
        } else {
            let m = match json_string_map(t) {
                Some(m) => m,
                None => Map::<Seq<char>, Seq<char>>::empty(),
            };
            if m.contains_key(day) && m[day] == "morning"@ && slot >= 4 {
                2
            } else if m.contains_key(day) && m[day] == "afternoon"@ && slot < 4 {
                2
            } else {
                0
            }
        },
        None => 0,
    }
}

/// Penalty for placing a class against the lecturer's preferred time of day.
pub fn preferred_penalty(preferred_json: &Option<String>, day: &str, slot: i64) -> (p: i64)
    ensures
        p == preferred_penalty_spec(opt_text(*preferred_json), day@, slot),
{
    let s = match preferred_json {
        Some(s) => s,
        None => return 0,
    };
    if s.as_str().is_empty() {
        return 0;
    }
    let pairs = match parse_string_map(s.as_str()) {
        Some(v) => v,
        None => Vec::new(),
    };
    let ghost m = match json_string_map(s@) {
        Some(m) => m,
        None => Map::<Seq<char>, Seq<char>>::empty(),
    };
    proof {
        if json_string_map(s@) is None {
            assert(pairs.deep_view() =~= Seq::<(Seq<char>, Seq<char>)>::empty());
        }
    }
    let mut i: usize = 0;
    while i < pairs.len()
        invariant
            i <= pairs@.len(),
            pairs_list_map(pairs.deep_view(), m),
            opt_text(*preferred_json) == Some(s@),
            s@.len() > 0,
            m == match json_string_map(s@) {
                Some(m) => m,
                None => Map::<Seq<char>, Seq<char>>::empty(),
            },
            forall|j: int| 0 <= j < i ==> pairs.deep_view()[j].0 != day@,
        decreases pairs@.len() - i,
    {
        proof {
            assert(pairs.deep_view()[i as int] == (pairs@[i as int].0@, pairs@[i as int].1@));
        }
        if str_eq(pairs[i].0.as_str(), day) {
            let morning = String::from_str("morning");
            let afternoon = String::from_str("afternoon");
            proof {
                assert(m.contains_key(day@));
                assert(m[day@] == pairs@[i as int].1@);
            }
            if pairs[i].1 == morning && slot >= 4 {
                assert(m[day@] == "morning"@);
                return 2;
            } else if pairs[i].1 == afternoon && slot < 4 {
                assert(m[day@] == "afternoon"@);
                return 2;
            } else {
                return 0;
            }
        }
        i = i + 1;
    }
    proof {
        if m.contains_key(day@) {
            let j = choose|j: int| 0 <= j < pairs.deep_view().len() && pairs.deep_view()[j].0 == day@;
            assert(pairs.deep_view()[j].0 != day@);
        }
    }
    0
}

/// The day an item of a blackout list names ("" when its day is not a
/// string).
pub open spec fn item_day(item: (Option<Seq<char>>, bool, Option<i64>)) -> Seq<char> {
    match item.0 {
        Some(d) => d,
        None => Seq::<char>::empty(),
    }
}

/// Whether a lecturer's blackout list (`[{"day":"Mon","slot":null},
/// {"day":"Fri","slot":2},...]`) blocks `(day, slot)`: some item names the
/// day and either has a null slot (the whole day) or this slot. Missing,
/// empty or unreadable JSON blocks nothing.
pub open spec fn blacked_out_spec(json: Option<Seq<char>>, day: Seq<char>, slot: i64) -> bool {
    match json {
        Some(t) => t.len() > 0 && match json_blackout_items(t) {
            Some(items) => exists|i: int| #![trigger items[i]]
                0 <= i < items.len() && item_day(items[i]) == day && (items[i].1 || items[i].2 == Some(slot)),
            None => false,
        },
        None => false,
    }
}

/// Whether the lecturer's blackout list blocks `(day, slot)`.
pub fn is_blacked_out(blackout_json: &Option<String>, day: &str, slot: i64) -> (b: bool)
    ensures
        b == blacked_out_spec(opt_text(*blackout_json), day@, slot),
{
    let s = match blackout_json {
        Some(s) => s,
        None => return false,
    };
    if s.as_str().is_empty() {
        return false;
    }
    let items = match parse_blackout_items(s.as_str()) {
        Some(v) => v,
        None => return false,
    };
    let ghost its = items.deep_view();
    let mut i: usize = 0;
    while i < items.len()
        invariant
            i <= items@.len(),
            its == items.deep_view(),
            opt_text(*blackout_json) == Some(s@),
            s@.len() > 0,
            json_blackout_items(s@) == Some(its),
            forall|j: int| 0 <= j < i ==> !(item_day(its[j]) == day@ && (its[j].1 || its[j].2 == Some(slot))),
        decreases items@.len() - i,
    {
        let item = &items[i];
        let d: &str = match &item.0 {
            Some(x) => x.as_str(),
            None => {
                proof {
                    reveal_strlit("");
                }
                ""
            },
        };
        proof {
            assert(its[i as int] == (opt_text(item.0), item.1, item.2));
            assert(d@ == item_day(its[i as int]));
        }
        if str_eq(d, day) {
            let whole_day = item.1;
            let same_slot = match item.2 {
                Some(x) => x == slot,
                None => false,
            };
            if whole_day || same_slot {
                assert(item_day(its[i as int]) == day@ && (its[i as int].1 || its[i as int].2 == Some(slot)));
                return true;
            }
        }
        i = i + 1;
    }
    false
}

// ── Consecutive teaching hours ───────────────────────────────────────────────

/// Inserts `x` before the first element that is not smaller.
pub open spec fn insert_sorted(s: Seq<i64>, x: i64) -> Seq<i64>
    decreases s.len(),
{
    if s.len() == 0 {
        seq![x]
    } else if x <= s[0] {
        seq![x] + s
    } else {
        seq![s[0]] + insert_sorted(s.drop_first(), x)
    }
}

/// The slots in ascending order (insertion sort).
pub open spec fn sort_slots(s: Seq<i64>) -> Seq<i64>
    decreases s.len(),
{
    if s.len() == 0 {
        s
    } else {
        insert_sorted(sort_slots(s.drop_last()), s.last())
    }
}

/// `b` directly follows `a` within a block of the day; slots 3 and 4 are
/// separated by the lunch break.
pub open spec fn adjacent_slots(a: i64, b: i64) -> bool {
    b == a + 1 && a != 3
}

/// The number of adjacent steps of the run that ends at position `k` of
/// a sorted slot list; the run holds one more slot than this.
pub open spec fn run_steps(s: Seq<i64>, k: int) -> nat
    decreases k,
{
    if 0 < k < s.len() && adjacent_slots(s[k - 1], s[k]) {
        run_steps(s, k - 1) + 1
    } else {
        0
    }
}

/// A sorted slot list holds a run of more than `max` consecutive slots
/// (`max <= 0` means unlimited).
pub open spec fn exceeds_run(s: Seq<i64>, max: i64) -> bool {
    max > 0 && exists|k: int| 0 <= k < s.len() && #[trigger] run_steps(s, k) >= max
}

proof fn lemma_insert_at(s: Seq<i64>, x: i64, p: int)
    requires
        0 <= p <= s.len(),
        forall|j: int| 0 <= j < p ==> !(x <= #[trigger] s[j]),
        p == s.len() || x <= s[p],
    ensures
        insert_sorted(s, x) == s.subrange(0, p) + seq![x] + s.subrange(p, s.len() as int),
    decreases p,
{
    if p == 0 {
        if s.len() == 0 {
            assert(seq![x] =~= s.subrange(0, 0) + seq![x] + s.subrange(0, 0));
        } else {
            assert(seq![x] + s =~= s.subrange(0, 0) + seq![x] + s.subrange(0, s.len() as int));
        }
    } else {
        let t = s.drop_first();
        assert forall|j: int| 0 <= j < p - 1 implies !(x <= #[trigger] t[j]) by {
            assert(t[j] == s[j + 1]);
        }
        if p < s.len() {
            assert(t[p - 1] == s[p]);
        }
        lemma_insert_at(t, x, p - 1);
        assert(!(x <= s[0]));
        assert(seq![s[0]] + (t.subrange(0, p - 1) + seq![x] + t.subrange(p - 1, t.len() as int))
            =~= s.subrange(0, p) + seq![x] + s.subrange(p, s.len() as int));
    }
}

/// Inserts `x` into `v` as `insert_sorted` does.
fn insert_slot(v: &mut Vec<i64>, x: i64)
    ensures
        final(v)@ == insert_sorted(old(v)@, x),
{
    let mut p: usize = 0;
    while p < v.len() && !(x <= v[p])
        invariant
            p <= v@.len(),
            forall|j: int| 0 <= j < p ==> !(x <= #[trigger] v@[j]),
        decreases v@.len() - p,
    {
        p = p + 1;
    }
    proof {
        lemma_insert_at(v@, x, p as int);
    }
    let ghost before = v@;
    v.insert(p, x);
    assert(v@ =~= before.subrange(0, p as int) + seq![x] + before.subrange(p as int, before.len() as int));
}

/// Whether adding `new_slot` to a lecturer's occupied slots of a day makes
/// a run of more than `max_consecutive` consecutive slots; slots 3 and 4
/// are not consecutive (lunch), and `max_consecutive <= 0` means unlimited.
pub fn would_exceed_consecutive(occupied: &[i64], new_slot: i64, max_consecutive: i64) -> (b: bool)
    ensures
        b == exceeds_run(sort_slots(occupied@.push(new_slot)), max_consecutive),
{
    if max_consecutive <= 0 {
        return false;
    }
    let mut all: Vec<i64> = Vec::new();
    let mut i: usize = 0;
    proof {
        assert(occupied@.subrange(0, 0) =~= Seq::<i64>::empty());
    }
    while i < occupied.len()
        invariant
            i <= occupied@.len(),
            all@ == sort_slots(occupied@.subrange(0, i as int)),
        decreases occupied@.len() - i,
    {
        proof {
            let pre = occupied@.subrange(0, i + 1);
            assert(pre.drop_last() =~= occupied@.subrange(0, i as int));
        }
        insert_slot(&mut all, occupied[i]);
        i = i + 1;
    }
    proof {
        let full = occupied@.push(new_slot);
        assert(full.drop_last() =~= occupied@.subrange(0, occupied@.len() as int));
    }
    insert_slot(&mut all, new_slot);
    let ghost s = all@;
    let n = all.len();
    if n == 0 {
        return false;
    }
    let mut run: i128 = 0;
    let mut k: usize = 1;
    assert(run_steps(s, 0) == 0);
    while k < n
        invariant
            s == all@,
            s == sort_slots(occupied@.push(new_slot)),
            n == s.len(),
            1 <= k <= n,
            max_consecutive > 0,
            run == run_steps(s, k - 1),
            forall|j: int| 0 <= j < k ==> #[trigger] run_steps(s, j) < max_consecutive,
        decreases n - k,
    {
        let a = all[k - 1];
        let b = all[k];
        if (b as i128) == (a as i128) + 1 && a != 3 {
            run = run + 1;
            assert(run_steps(s, k as int) == run_steps(s, k - 1) + 1);
            if run >= max_consecutive as i128 {
                assert(run_steps(s, k as int) >= max_consecutive);
                return true;
            }
        } else {
            run = 0;
        }
        k = k + 1;
    }
    proof {
        assert forall|j: int| 0 <= j < s.len() implies #[trigger] run_steps(s, j) < max_consecutive by {}
    }
    false
}

} // verus!
