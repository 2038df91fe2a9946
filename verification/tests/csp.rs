//! Tests of the constraint-satisfaction scheduler and of the pieces both
//! schedulers share.

use schedula::csp::{domain_size, first_need_pos, generate_csp, last_conflict, lcv_cost, pick_need};
use schedula::models::{Batch, Course, Lecturer, Room};
use schedula::scheduler::{build_needs, generate, order_need_list, rank_candidates, Need};
use schedula::timetable::{resolve_days, PlacedEntry, SchedulerInput};

fn lec(id: i64, days: &str, max_day: i64, max_week: i64) -> Lecturer {
    Lecturer {
        id,
        name: format!("Lec{}", id),
        email: None,
        available_days: days.to_string(),
        max_hours_per_day: max_day,
        max_hours_per_week: max_week,
        org_id: Some(1),
        preferred_slots_json: None,
        blackout_json: None,
        max_consecutive_hours: 0,
    }
}

fn course(id: i64, hours: i64, rtype: &str, ctype: &str, lid: Option<i64>) -> Course {
    Course {
        id,
        code: format!("CS{:03}", id),
        name: format!("Course {}", id),
        hours_per_week: hours,
        room_type: rtype.to_string(),
        class_type: ctype.to_string(),
        frequency: "weekly".to_string(),
        lecturer_id: lid,
        lecturer_name: None,
        org_id: Some(1),
    }
}

fn room(id: i64, cap: i64, rtype: &str) -> Room {
    Room {
        id,
        name: format!("R{}", id),
        capacity: cap,
        room_type: rtype.to_string(),
        available_days: "Mon,Tue,Wed,Thu,Fri".to_string(),
        org_id: Some(1),
    }
}

fn batch(id: i64, size: i64, cids: Vec<i64>) -> Batch {
    Batch {
        id,
        name: format!("B{}", id),
        department: "CS".to_string(),
        semester: 1,
        size,
        course_ids: cids,
        org_id: Some(1),
        semester_id: None,
    }
}

fn entry(lid: i64, bid: i64, rid: i64, day: &str, slot: i64) -> PlacedEntry {
    PlacedEntry {
        course_id: 1,
        lecturer_id: lid,
        room_id: rid,
        batch_id: bid,
        day: day.to_string(),
        time_slot: slot,
        class_type: "lecture".to_string(),
        week_parity: 0,
    }
}

fn no_double_booking(es: &[PlacedEntry]) {
    for (i, a) in es.iter().enumerate() {
        for b in es.iter().skip(i + 1) {
            if a.day == b.day && a.time_slot == b.time_slot {
                assert_ne!(a.room_id, b.room_id);
                assert_ne!(a.lecturer_id, b.lecturer_id);
                assert_ne!(a.batch_id, b.batch_id);
            }
        }
    }
}

#[test]
fn csp_places_all_sessions_of_a_simple_input() {
    let inp = SchedulerInput {
        courses: vec![course(1, 2, "lecture", "lecture", Some(1))],
        lecturers: vec![lec(1, "Mon,Tue,Wed,Thu,Fri", 4, 20)],
        rooms: vec![room(1, 30, "lecture")],
        batches: vec![batch(1, 25, vec![1])],
        working_days: vec![],
    };
    let r = generate_csp(&inp);
    assert_eq!(r.entries.len(), 2);
    assert!(r.unscheduled.is_empty());
}

#[test]
fn csp_reports_missing_lecturers() {
    let inp = SchedulerInput {
        courses: vec![course(1, 2, "lecture", "lecture", None), course(2, 1, "lecture", "lecture", Some(99))],
        lecturers: vec![],
        rooms: vec![room(1, 30, "lecture")],
        batches: vec![batch(1, 25, vec![1, 2])],
        working_days: vec![],
    };
    let r = generate_csp(&inp);
    assert!(r.entries.is_empty());
    assert_eq!(r.unscheduled.len(), 2);
    assert_eq!(r.unscheduled[0].reason, "No lecturer assigned to course");
    assert_eq!(r.unscheduled[0].hours_needed, 2);
    assert_eq!(r.unscheduled[1].reason, "Assigned lecturer not found");
}

#[test]
fn csp_reports_a_shortfall_when_no_room_fits() {
    let inp = SchedulerInput {
        courses: vec![course(1, 2, "lab", "lab", Some(1))],
        lecturers: vec![lec(1, "Mon,Tue,Wed,Thu,Fri", 4, 20)],
        rooms: vec![room(1, 30, "lecture")],
        batches: vec![batch(1, 25, vec![1])],
        working_days: vec![],
    };
    let r = generate_csp(&inp);
    assert!(r.entries.is_empty());
    assert_eq!(r.unscheduled.len(), 1);
    assert_eq!(r.unscheduled[0].hours_needed, 2);
    assert_eq!(r.unscheduled[0].reason, "Could only place 0/2 sessions — no valid slot/room for remaining");
}

#[test]
fn csp_keeps_hard_constraints_on_a_dense_input() {
    let lecturers: Vec<Lecturer> = (1..=4).map(|i| lec(i, "Mon,Tue,Wed", 3, 8)).collect();
    let courses: Vec<Course> = (1..=8).map(|i| course(i, 3, "lecture", "lecture", Some((i % 4) + 1))).collect();
    let rooms: Vec<Room> = (1..=2).map(|i| room(i, 40, "lecture")).collect();
    let batches: Vec<Batch> = (1..=4).map(|i| batch(i, 30, vec![i * 2 - 1, i * 2])).collect();
    let inp = SchedulerInput { courses, lecturers, rooms, batches, working_days: vec!["Mon".into(), "Tue".into(), "Wed".into()] };
    let r = generate_csp(&inp);
    no_double_booking(&r.entries);
    for e in &r.entries {
        assert!(["Mon", "Tue", "Wed"].contains(&e.day.as_str()));
    }
    let g = generate(&inp);
    no_double_booking(&g.entries);
}

#[test]
fn greedy_accounts_for_every_session() {
    // Two lecturers: one capped at 3 h per week, one missing.
    let inp = SchedulerInput {
        courses: vec![
            course(1, 5, "lecture", "lecture", Some(1)),
            course(2, 2, "lecture", "lecture", Some(7)),
            course(3, 1, "lab", "lab", Some(1)),
        ],
        lecturers: vec![lec(1, "Mon,Tue", 8, 3)],
        rooms: vec![room(1, 30, "lecture")],
        batches: vec![batch(1, 25, vec![1, 2, 3])],
        working_days: vec![],
    };
    let r = generate(&inp);
    let reported: i64 = r.unscheduled.iter().map(|u| u.hours_needed).sum();
    assert_eq!(r.entries.len() as i64 + reported, 5 + 2 + 1);
    assert_eq!(r.entries.len(), 3);
}

#[test]
fn greedy_uses_the_configured_working_days() {
    let inp = SchedulerInput {
        courses: vec![course(1, 3, "lecture", "lecture", Some(1))],
        lecturers: vec![lec(1, "Sat,Sun", 8, 20)],
        rooms: vec![Room { available_days: "Sat,Sun".into(), ..room(1, 30, "lecture") }],
        batches: vec![batch(1, 25, vec![1])],
        working_days: vec!["Sat".into(), "Sun".into()],
    };
    let r = generate(&inp);
    assert_eq!(r.entries.len(), 3);
    for e in &r.entries {
        assert!(e.day == "Sat" || e.day == "Sun");
    }
}

#[test]
fn needs_are_ordered_most_hours_first_and_stably() {
    let inp = SchedulerInput {
        courses: vec![
            course(1, 2, "lecture", "lecture", Some(1)),
            course(2, 5, "lecture", "lecture", Some(1)),
            Course { frequency: "biweekly".into(), ..course(3, 3, "lecture", "lecture", Some(1)) },
        ],
        lecturers: vec![],
        rooms: vec![],
        batches: vec![batch(1, 25, vec![1, 2, 99, 3]), batch(2, 25, vec![1])],
        working_days: vec![],
    };
    let needs = build_needs(&inp);
    let got: Vec<(i64, i64, i64, bool)> = needs.iter().map(|n| (n.batch_id, n.course_id, n.hours, n.biweekly)).collect();
    assert_eq!(got, vec![(1, 1, 2, false), (1, 2, 5, false), (1, 3, 2, true), (2, 1, 2, false)]);
    let ordered = order_need_list(&needs);
    let got: Vec<(i64, i64)> = ordered.iter().map(|n| (n.batch_id, n.course_id)).collect();
    assert_eq!(got, vec![(1, 2), (1, 1), (1, 3), (2, 1)]);
}

#[test]
fn candidates_are_ranked_by_load_then_penalty() {
    let days = resolve_days(&vec![]);
    let es = vec![entry(9, 1, 9, "Mon", 2)];
    let v = rank_candidates(&days, &es, 1, &"lab".to_string(), &None);
    assert_eq!(v.len(), 40);
    // A lab prefers the afternoon; Monday already holds a class of the batch.
    assert_eq!((v[0].day, v[0].slot, v[0].penalty, v[0].load), (1, 4, 0, 0));
    assert_eq!(v[39].day, 0);
    assert_eq!(v[39].slot, 3);
}

#[test]
fn domain_counts_open_cells() {
    let days = resolve_days(&vec!["Mon".into(), "Tue".into()]);
    let c = course(1, 2, "lecture", "lecture", Some(1));
    let l = lec(1, "Mon", 8, 20);
    let rooms = vec![room(1, 30, "lecture")];
    assert_eq!(domain_size(1, 25, &c, &l, &days, &vec![], &rooms), 8);
    let es = vec![entry(1, 5, 1, "Mon", 0), entry(2, 1, 2, "Mon", 1)];
    assert_eq!(domain_size(1, 25, &c, &l, &days, &es, &rooms), 6);
    assert_eq!(domain_size(1, 40, &c, &l, &days, &vec![], &rooms), 0);
    let capped = lec(1, "Mon", 8, 1);
    assert_eq!(domain_size(1, 25, &c, &capped, &days, &es, &rooms), 0);
}

#[test]
fn lcv_counts_what_a_cell_takes_from_others() {
    let inp = SchedulerInput {
        courses: vec![course(1, 2, "lecture", "lecture", Some(1)), course(2, 1, "lecture", "lecture", Some(2))],
        lecturers: vec![lec(1, "Mon", 8, 20), lec(2, "Mon", 8, 20)],
        rooms: vec![],
        batches: vec![],
        working_days: vec![],
    };
    let remaining = vec![
        Need { batch_id: 1, course_id: 1, hours: 2, biweekly: false },
        Need { batch_id: 2, course_id: 2, hours: 1, biweekly: false },
        Need { batch_id: 1, course_id: 77, hours: 1, biweekly: false },
    ];
    // same lecturer + same batch + room free, then room free only.
    assert_eq!(lcv_cost(&"Mon".to_string(), 0, 1, 1, 1, &remaining, &inp, &vec![]), 4);
    let busy = vec![entry(3, 3, 1, "Mon", 0)];
    assert_eq!(lcv_cost(&"Mon".to_string(), 0, 1, 1, 1, &remaining, &inp, &busy), 2);
}

#[test]
fn pick_prefers_needs_without_lecturer_then_smallest_domain() {
    let inp = SchedulerInput {
        courses: vec![
            course(1, 2, "lecture", "lecture", Some(1)),
            course(2, 2, "lecture", "lecture", Some(2)),
            course(3, 2, "lecture", "lecture", None),
        ],
        lecturers: vec![lec(1, "Mon,Tue,Wed", 8, 20), lec(2, "Mon", 8, 20)],
        rooms: vec![room(1, 30, "lecture")],
        batches: vec![batch(1, 25, vec![1, 2, 3])],
        working_days: vec![],
    };
    let days = resolve_days(&inp.working_days);
    let needs = build_needs(&inp);
    assert_eq!(pick_need(&inp, &needs, &vec![0, 1, 2], &days, &vec![]), 2);
    assert_eq!(pick_need(&inp, &needs, &vec![0, 1], &days, &vec![]), 1);
    assert_eq!(pick_need(&inp, &needs, &vec![0], &days, &vec![]), 0);
}

#[test]
fn backjump_helpers() {
    let es = vec![entry(1, 1, 1, "Mon", 0), entry(2, 2, 2, "Mon", 1), entry(3, 1, 3, "Tue", 0)];
    assert_eq!(last_conflict(&es, 1, 9), Some(0));
    assert_eq!(last_conflict(&es, 9, 1), Some(2));
    assert_eq!(last_conflict(&es, 9, 9), None);
    let needs = vec![
        Need { batch_id: 1, course_id: 1, hours: 1, biweekly: false },
        Need { batch_id: 1, course_id: 2, hours: 1, biweekly: false },
        Need { batch_id: 1, course_id: 2, hours: 3, biweekly: false },
    ];
    assert_eq!(first_need_pos(&needs, 1, 2), Some(1));
    assert_eq!(first_need_pos(&needs, 2, 2), None);
}

#[test]
fn csp_covers_every_need_by_classes_or_a_report() {
    // Lecturer 1 can teach only 3 hours a week; course 2 has no lecturer.
    let input = SchedulerInput {
        courses: vec![
            course(1, 5, "lecture", "lecture", Some(1)),
            course(2, 2, "lecture", "lecture", None),
            course(3, 2, "lecture", "lecture", Some(2)),
        ],
        lecturers: vec![lec(1, "Mon,Tue,Wed,Thu,Fri", 4, 3), lec(2, "Mon,Tue,Wed,Thu,Fri", 4, 20)],
        rooms: vec![room(1, 40, "lecture")],
        batches: vec![batch(1, 30, vec![1, 2, 3])],
        working_days: vec![],
    };
    let r = generate_csp(&input);
    for (cid, hours) in [(1i64, 5i64), (2, 2), (3, 2)] {
        let placed = r.entries.iter().filter(|e| e.batch_id == 1 && e.course_id == cid).count() as i64;
        let code = format!("CS{:03}", cid);
        let covered = placed >= hours
            || r.unscheduled.iter().any(|u| u.course_code == code && placed + u.hours_needed >= hours);
        assert!(covered, "course {} not covered", cid);
    }
}

#[test]
fn csp_backjumps_on_its_own_class_under_a_weekly_cap() {
    // The lecturer may teach 5 hours a week; the course needs 10.
    let input = SchedulerInput {
        courses: vec![course(1, 10, "lecture", "lecture", Some(1))],
        lecturers: vec![lec(1, "Mon,Tue,Wed,Thu,Fri", 8, 5)],
        rooms: vec![room(1, 30, "lecture")],
        batches: vec![batch(1, 25, vec![1])],
        working_days: vec![],
    };
    let r = generate_csp(&input);
    assert_eq!(r.entries.len(), 5);
    assert_eq!(r.unscheduled.len(), 1);
    // Each retry undoes the need's own latest class and places one again;
    // when the backjumps run out the last round placed 1 of 10.
    assert_eq!(r.unscheduled[0].hours_needed, 9);
    assert_eq!(r.unscheduled[0].reason, "Could only place 1/10 sessions — no valid slot/room for remaining");
}

#[test]
fn csp_reports_a_course_without_lecturer_once() {
    let input = SchedulerInput {
        courses: vec![course(1, 2, "lecture", "lecture", None)],
        lecturers: vec![],
        rooms: vec![room(1, 30, "lecture")],
        batches: vec![batch(1, 25, vec![1])],
        working_days: vec![],
    };
    let r = generate_csp(&input);
    assert!(r.entries.is_empty());
    assert_eq!(r.unscheduled.len(), 1);
    assert_eq!(r.unscheduled[0].reason, "No lecturer assigned to course");
    assert_eq!(r.unscheduled[0].hours_needed, 2);
    assert_eq!(r.unscheduled[0].batch_name, "B1");
    assert_eq!(r.unscheduled[0].course_code, "CS001");
}

#[test]
fn csp_places_half_the_hours_of_a_biweekly_course() {
    let mut c = course(1, 3, "lecture", "lecture", Some(1));
    c.frequency = "biweekly".to_string();
    let input = SchedulerInput {
        courses: vec![c],
        lecturers: vec![lec(1, "Mon,Tue,Wed,Thu,Fri", 8, 20)],
        rooms: vec![room(1, 30, "lecture")],
        batches: vec![batch(1, 25, vec![1])],
        working_days: vec![],
    };
    let r = generate_csp(&input);
    assert_eq!(r.entries.len(), 2);
    assert!(r.entries.iter().all(|e| e.week_parity == 1 && e.course_id == 1));
    assert!(r.unscheduled.is_empty());
}

#[test]
fn csp_puts_labs_in_lab_rooms_in_the_afternoon() {
    let input = SchedulerInput {
        courses: vec![course(1, 2, "lab", "lab", Some(1))],
        lecturers: vec![lec(1, "Mon,Tue,Wed,Thu,Fri", 4, 20)],
        rooms: vec![room(1, 30, "lecture"), room(2, 30, "lab")],
        batches: vec![batch(1, 25, vec![1])],
        working_days: vec![],
    };
    let r = generate_csp(&input);
    assert_eq!(r.entries.len(), 2);
    assert!(r.entries.iter().all(|e| e.room_id == 2 && e.time_slot >= 4));
    assert!(r.unscheduled.is_empty());
}

#[test]
fn csp_gives_each_batch_its_sessions() {
    let input = SchedulerInput {
        courses: vec![course(1, 2, "lecture", "lecture", Some(1))],
        lecturers: vec![lec(1, "Mon,Tue,Wed,Thu,Fri", 8, 40)],
        rooms: vec![room(1, 30, "lecture"), room(2, 30, "lecture")],
        batches: vec![batch(1, 25, vec![1]), batch(2, 25, vec![1])],
        working_days: vec![],
    };
    let r = generate_csp(&input);
    assert_eq!(r.entries.len(), 4);
    assert_eq!(r.entries.iter().filter(|e| e.batch_id == 1).count(), 2);
    assert_eq!(r.entries.iter().filter(|e| e.batch_id == 2).count(), 2);
    assert!(r.unscheduled.is_empty());
}

#[test]
fn csp_reports_once_when_no_room_is_large_enough() {
    let input = SchedulerInput {
        courses: vec![course(1, 1, "lecture", "lecture", Some(1))],
        lecturers: vec![lec(1, "Mon,Tue,Wed,Thu,Fri", 4, 20)],
        rooms: vec![room(1, 10, "lecture")],
        batches: vec![batch(1, 100, vec![1])],
        working_days: vec![],
    };
    let r = generate_csp(&input);
    assert!(r.entries.is_empty());
    assert_eq!(r.unscheduled.len(), 1);
    assert_eq!(r.unscheduled[0].hours_needed, 1);
    assert_eq!(r.unscheduled[0].course_code, "CS001");
}
