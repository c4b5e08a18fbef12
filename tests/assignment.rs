use student_assignment::backend::{SolverHandle, Verdict};
use student_assignment::constraint::{count_set, count_set_in_column, satisfies, satisfies_all, Constraint};
use student_assignment::table::{decide, schedule, AssignmentTable, Attendee, Outcome, Solution, Timeslot};

fn attendees(names: &[&str]) -> Vec<Attendee> {
    names.iter().map(|n| Attendee { name: n.to_string() }).collect()
}

fn slot(name: &str, capacity: Option<u64>) -> Timeslot {
    Timeslot { name: name.to_string(), capacity }
}

fn expect_solution(o: Outcome) -> Solution {
    match o {
        Outcome::Satisfiable(s) => s,
        Outcome::Unsatisfiable => panic!("expected a solution, got unsatisfiable"),
        Outcome::Unknown => panic!("expected a solution, got unknown"),
    }
}

fn is_unsat(o: &Outcome) -> bool {
    matches!(o, Outcome::Unsatisfiable)
}

#[test]
fn full_test() {
    let people = attendees(&["Alice", "Bob", "Carol", "Dave"]);
    let slots = vec![slot("Morning", Some(2)), slot("Noon", Some(1)), slot("Evening", None)];
    let result = schedule(people, slots, 1);
    assert!(result.is_ok());
    let (_table, _handle, _outcome) = result.unwrap();
}

#[test]
fn two_attendees_two_single_rooms_form_a_bijection() {
    let slots = vec![slot("Room A", Some(1)), slot("Room B", Some(1))];
    let (table, _h, outcome) = schedule(attendees(&["Alice", "Bob"]), slots, 1).unwrap();
    let s = expect_solution(outcome);
    let alice = s.first_assigned(0).unwrap();
    let bob = s.first_assigned(1).unwrap();
    assert_ne!(alice, bob);
    let names: Vec<&str> = vec![
        table.timeslots()[alice].name.as_str(),
        table.timeslots()[bob].name.as_str(),
    ];
    assert!(names == vec!["Room A", "Room B"] || names == vec!["Room B", "Room A"]);
}

#[test]
fn three_attendees_one_single_slot_is_unsatisfiable() {
    let (_t, _h, outcome) =
        schedule(attendees(&["A", "B", "C"]), vec![slot("Only", Some(1))], 1).unwrap();
    assert!(is_unsat(&outcome));
}

#[test]
fn one_attendee_two_visits_reports_first_slot_only() {
    let slots = vec![slot("First", Some(5)), slot("Second", Some(5))];
    let (_t, _h, outcome) = schedule(attendees(&["Solo"]), slots, 2).unwrap();
    let s = expect_solution(outcome);
    assert_eq!(s.first_assigned(0), Some(0));
    assert_eq!(s.assigned_slots(0), vec![0, 1]);
}

#[test]
fn zero_visits_leaves_everyone_unassigned() {
    let slots = vec![slot("X", Some(0)), slot("Y", Some(3))];
    let (_t, _h, outcome) = schedule(attendees(&["A", "B", "C"]), slots, 0).unwrap();
    let s = expect_solution(outcome);
    assert_eq!(s.attendee_count(), 3);
    for i in 0..3 {
        assert_eq!(s.first_assigned(i), None);
        assert!(s.assigned_slots(i).is_empty());
    }
}

#[test]
fn more_visits_than_timeslots_is_unsatisfiable() {
    let slots = vec![slot("X", None), slot("Y", None)];
    let (_t, _h, outcome) = schedule(attendees(&["A"]), slots, 3).unwrap();
    assert!(is_unsat(&outcome));
}

#[test]
fn huge_visit_count_is_unsatisfiable() {
    let (_t, _h, outcome) = schedule(attendees(&["A", "B"]), vec![slot("X", None)], u64::MAX).unwrap();
    assert!(is_unsat(&outcome));
}

#[test]
fn no_attendees_is_satisfiable_even_with_many_visits() {
    let (_t, _h, outcome) = schedule(Vec::new(), vec![slot("X", Some(1))], 5).unwrap();
    let s = expect_solution(outcome);
    assert_eq!(s.attendee_count(), 0);
}

#[test]
fn unbounded_slot_takes_everyone() {
    let (_t, _h, outcome) = schedule(attendees(&["A", "B", "C"]), vec![slot("Hall", None)], 1).unwrap();
    let s = expect_solution(outcome);
    for i in 0..3 {
        assert_eq!(s.first_assigned(i), Some(0));
    }
}

#[test]
fn zero_capacity_slot_cannot_be_visited() {
    let (_t, _h, outcome) = schedule(attendees(&["A"]), vec![slot("Closed", Some(0))], 1).unwrap();
    assert!(is_unsat(&outcome));
}

#[test]
fn solutions_meet_visits_and_capacities() {
    let slots = vec![slot("S0", Some(2)), slot("S1", Some(1)), slot("S2", Some(3)), slot("S3", None)];
    let caps = [Some(2u64), Some(1), Some(3), None];
    let (_t, _h, outcome) = schedule(attendees(&["A", "B", "C", "D"]), slots, 2).unwrap();
    let s = expect_solution(outcome);
    for i in 0..4 {
        assert_eq!(s.assigned_slots(i).len(), 2);
    }
    for (j, cap) in caps.iter().enumerate() {
        let used = (0..4).filter(|&i| s.is_assigned(i, j)).count() as u64;
        if let Some(c) = cap {
            assert!(used <= *c);
        }
    }
}

#[test]
fn table_has_one_variable_per_pair_in_load_order() {
    let slots = vec![slot("a", None), slot("b", Some(1)), slot("c", Some(2))];
    let table = AssignmentTable::build(attendees(&["P", "Q"]), slots).unwrap();
    assert_eq!(table.variable_count(), 6);
    for i in 0..2 {
        let row = table.assignments_for(i);
        assert_eq!(row.len(), 3);
        let idx: Vec<usize> = row.iter().map(|(j, _)| *j).collect();
        assert_eq!(idx, vec![0, 1, 2]);
    }
    assert_eq!(table.attendees()[1].name, "Q");
    assert_eq!(table.timeslots()[2].capacity, Some(2));
}

#[test]
fn generators_record_their_constraints() {
    let slots = vec![slot("a", Some(4)), slot("b", None), slot("c", Some(0))];
    let table = AssignmentTable::build(attendees(&["P", "Q"]), slots).unwrap();
    let mut handle = SolverHandle::new();
    assert!(handle.asserted_constraints().is_empty());
    table.eq_visits(&mut handle, 1);
    table.max_attendees(&mut handle);
    assert_eq!(
        handle.asserted_constraints(),
        &vec![
            Constraint::RowExactly { row: 0, count: 1 },
            Constraint::RowExactly { row: 1, count: 1 },
            Constraint::ColumnAtMost { column: 0, count: 4 },
            Constraint::ColumnAtMost { column: 2, count: 0 },
        ]
    );
    let s = expect_solution(table.solve(&handle));
    for i in 0..2 {
        assert_eq!(s.first_assigned(i), Some(s.assigned_slots(i)[0]));
        assert!(!s.is_assigned(i, 2));
    }
}

#[test]
fn solution_row_lists_every_slot() {
    let (_t, _h, outcome) =
        schedule(attendees(&["A"]), vec![slot("X", Some(0)), slot("Y", Some(1))], 1).unwrap();
    let s = expect_solution(outcome);
    assert_eq!(s.assignments_for(0), vec![(0, false), (1, true)]);
    assert_eq!(s.first_assigned(0), Some(1));
}

#[test]
fn counting_helpers() {
    assert_eq!(count_set(&vec![]), 0);
    assert_eq!(count_set(&vec![true, false, true, true]), 3);
    let cells = vec![vec![true, false], vec![true, true], vec![false, false]];
    assert_eq!(count_set_in_column(&cells, 0), 2);
    assert_eq!(count_set_in_column(&cells, 1), 1);
}

#[test]
fn constraint_checks() {
    let cells = vec![vec![true, false], vec![true, true]];
    assert!(satisfies(&cells, Constraint::RowExactly { row: 0, count: 1 }));
    assert!(!satisfies(&cells, Constraint::RowExactly { row: 1, count: 1 }));
    assert!(!satisfies(&cells, Constraint::RowExactly { row: 2, count: 0 }));
    assert!(satisfies(&cells, Constraint::ColumnAtMost { column: 0, count: 2 }));
    assert!(!satisfies(&cells, Constraint::ColumnAtMost { column: 0, count: 1 }));
    assert!(!satisfies(&cells, Constraint::ColumnAtMost { column: 2, count: 9 }));
    assert!(satisfies_all(&cells, &vec![]));
    assert!(satisfies_all(
        &cells,
        &vec![
            Constraint::RowExactly { row: 1, count: 2 },
            Constraint::ColumnAtMost { column: 1, count: 1 },
        ]
    ));
    assert!(!satisfies_all(
        &cells,
        &vec![
            Constraint::RowExactly { row: 1, count: 2 },
            Constraint::ColumnAtMost { column: 0, count: 1 },
        ]
    ));
}

#[test]
fn decide_follows_the_verdict_and_checks_the_model() {
    let asserted = vec![
        Constraint::RowExactly { row: 0, count: 1 },
        Constraint::ColumnAtMost { column: 1, count: 0 },
    ];
    let good = vec![vec![true, false]];
    let bad = vec![vec![false, true]];
    assert!(matches!(decide(Verdict::Unsat, None, &asserted), Outcome::Unsatisfiable));
    assert!(matches!(decide(Verdict::Unsat, Some(good.clone()), &asserted), Outcome::Unsatisfiable));
    assert!(matches!(decide(Verdict::Unknown, Some(good.clone()), &asserted), Outcome::Unknown));
    assert!(matches!(decide(Verdict::Sat, None, &asserted), Outcome::Unknown));
    assert!(matches!(decide(Verdict::Sat, Some(bad), &asserted), Outcome::Unknown));
    let s = expect_solution(decide(Verdict::Sat, Some(good), &asserted));
    assert_eq!(s.assignments_for(0), vec![(0, true), (1, false)]);
}

#[test]
fn schedule_asserts_both_rule_sets() {
    let slots = vec![slot("a", None), slot("b", Some(2))];
    let (_t, h, _o) = schedule(attendees(&["P", "Q", "R"]), slots, 1).unwrap();
    assert_eq!(
        h.asserted_constraints(),
        &vec![
            Constraint::RowExactly { row: 0, count: 1 },
            Constraint::RowExactly { row: 1, count: 1 },
            Constraint::RowExactly { row: 2, count: 1 },
            Constraint::ColumnAtMost { column: 1, count: 2 },
        ]
    );
}

#[test]
fn unassigned_solution_is_all_false() {
    let s = Solution::unassigned(2, 3);
    assert_eq!(s.attendee_count(), 2);
    assert_eq!(s.assignments_for(1), vec![(0, false), (1, false), (2, false)]);
    assert_eq!(s.first_assigned(0), None);
}
