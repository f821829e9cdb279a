use task_engine::priority::Priority;
use task_engine::registry::{Pending, Registry};

fn registry_of(items: &[(u64, &'static str)]) -> Registry<&'static str> {
    let mut r = Registry::new();
    for (level, name) in items {
        assert!(r.push(Priority::new(*level), *name).is_ok());
    }
    r
}

fn names(out: &[Pending<&'static str>]) -> Vec<&'static str> {
    out.iter().map(|p| p.handle).collect()
}

#[test]
fn push_numbers_registrations_in_order() {
    let r = registry_of(&[(5, "a"), (1, "b"), (5, "c")]);
    assert_eq!(r.len(), 3);
    assert_eq!(r.next_seq(), 3);
    let seqs: Vec<u64> = r.entries().iter().map(|p| p.seq).collect();
    assert_eq!(seqs, vec![0, 1, 2]);
    assert_eq!(r.entries()[1].priority, Priority::new(1));
}

#[test]
fn equal_priorities_drain_last_in_first_out() {
    let mut r = registry_of(&[(7, "A"), (7, "B"), (7, "C")]);
    let out = r.wait_all(false, 3);
    assert_eq!(names(&out), vec!["C", "B", "A"]);
    assert!(r.is_empty());
}

#[test]
fn drain_order_follows_priority_for_every_submission_order() {
    let orders: [[(u64, &str); 3]; 6] = [
        [(1, "low"), (2, "mid"), (3, "high")],
        [(1, "low"), (3, "high"), (2, "mid")],
        [(2, "mid"), (1, "low"), (3, "high")],
        [(2, "mid"), (3, "high"), (1, "low")],
        [(3, "high"), (1, "low"), (2, "mid")],
        [(3, "high"), (2, "mid"), (1, "low")],
    ];
    for order in orders.iter() {
        let mut r = registry_of(order);
        let out = r.wait_all(false, 3);
        assert_eq!(names(&out), vec!["high", "mid", "low"]);
    }
}

#[test]
fn mixed_priorities_and_ties() {
    let mut r = registry_of(&[(2, "a"), (9, "b"), (2, "c"), (0, "d"), (9, "e")]);
    let out = r.wait_all(false, 1);
    assert_eq!(names(&out), vec!["e", "b", "c", "a", "d"]);
}

#[test]
fn full_drain_on_empty_stream_changes_nothing() {
    let mut r = registry_of(&[(1, "a"), (2, "b")]);
    let out = r.wait_all(true, 2);
    assert!(out.is_empty());
    assert_eq!(r.len(), 2);
    let out = r.wait_all(false, 0);
    assert!(out.is_empty());
    assert_eq!(names(r.entries()), vec!["a", "b"]);
}

#[test]
fn full_drain_of_empty_registry() {
    let mut r: Registry<&'static str> = Registry::new();
    assert!(r.wait_all(false, 4).is_empty());
    assert!(r.is_empty());
}

#[test]
fn take_all_empties_registry_in_drain_order() {
    let mut r = registry_of(&[(3, "a"), (1, "b"), (2, "c"), (1, "d")]);
    let out = r.take_all();
    assert_eq!(names(&out), vec!["a", "c", "d", "b"]);
    assert!(r.is_empty());
    assert_eq!(r.next_seq(), 4);
    assert!(r.push(Priority::new(1), "e").is_ok());
    assert_eq!(r.entries()[0].seq, 4);
}

#[test]
fn partial_drain_below_in_flight_is_refused() {
    let mut r = registry_of(&[(1, "a"), (2, "b"), (3, "c")]);
    let out = r.wait_for(2, false, 3);
    assert!(out.is_empty());
    assert_eq!(names(r.entries()), vec!["a", "b", "c"]);
}

#[test]
fn partial_drain_of_all_in_flight_drains_everything() {
    let mut r = registry_of(&[(1, "a"), (2, "b"), (3, "c")]);
    let out = r.wait_for(3, false, 3);
    assert_eq!(names(&out), vec!["c", "b", "a"]);
    assert!(r.is_empty());
}

#[test]
fn partial_drain_beyond_registered_is_refused() {
    let mut r = registry_of(&[(1, "a"), (2, "b")]);
    assert!(r.wait_for(3, false, 2).is_empty());
    assert_eq!(r.len(), 2);
}

#[test]
fn partial_drain_on_empty_stream_is_refused() {
    let mut r = registry_of(&[(1, "a"), (2, "b")]);
    assert!(r.wait_for(2, true, 2).is_empty());
    assert!(r.wait_for(2, false, 0).is_empty());
    assert_eq!(r.len(), 2);
}

#[test]
fn partial_drain_leaves_the_rest_sorted_ascending() {
    let mut r = registry_of(&[(4, "a"), (1, "b"), (4, "c"), (2, "d"), (0, "e"), (1, "f")]);
    let out = r.wait_for(2, false, 1);
    assert_eq!(names(&out), vec!["c", "a"]);
    assert_eq!(names(r.entries()), vec!["e", "b", "f", "d"]);
}

#[test]
fn partial_drain_of_one_sorts_what_is_left() {
    let mut r = registry_of(&[(2, "a"), (1, "b"), (3, "c")]);
    let out = r.wait_for(1, false, 1);
    assert_eq!(names(&out), vec!["c"]);
    assert_eq!(names(r.entries()), vec!["b", "a"]);
    assert!(r.push(Priority::new(5), "d").is_ok());
    assert_eq!(names(r.entries()), vec!["b", "a", "d"]);
    assert_eq!(names(&r.take_all()), vec!["d", "a", "b"]);
}

#[test]
fn drain_highest_takes_the_top_entries() {
    let mut r = registry_of(&[(5, "a"), (8, "b"), (5, "c"), (6, "d")]);
    let out = r.drain_highest(2);
    assert_eq!(names(&out), vec!["b", "d"]);
    assert_eq!(names(r.entries()), vec!["a", "c"]);
    assert!(r.drain_highest(0).is_empty());
}
