use ritz::supervisor::{
    exit_code, notice_change, ready_names, Ended, Supervision, Tick, POLL_MILLIS,
    READY_TIMEOUT_MILLIS,
};

fn tick(elapsed: u64) -> Tick {
    Tick { ended: None, term: false, running: false, elapsed, changed: false }
}

#[test]
fn codes_are_those_of_a_shell() {
    assert_eq!(exit_code(Ended { code: Some(3), signal: None }), 3);
    assert_eq!(exit_code(Ended { code: None, signal: Some(9) }), 137);
    assert_eq!(exit_code(Ended { code: None, signal: None }), 128);
    assert_eq!(POLL_MILLIS, 500);
    assert_eq!(READY_TIMEOUT_MILLIS, 60_000);
}

#[test]
fn names_that_are_awaited() {
    let names = ready_names(&vec![None, Some("a".into()), None], &Some("g".into()));
    assert_eq!(names, vec!["a", "g"]);
    assert!(ready_names(&vec![], &None).is_empty());
}

#[test]
fn readiness_fires_once() {
    let mut s = Supervision::start(&vec!["g".to_string()]);
    assert!(!s.tick(tick(0)).fire_ready);
    let running = Tick { running: true, ..tick(500) };
    assert!(s.tick(running).fire_ready);
    assert!(!s.tick(running).fire_ready);
    // With nothing to await it never fires.
    let mut s = Supervision::start(&vec![]);
    assert!(!s.tick(running).fire_ready);
}

#[test]
fn readiness_is_given_up() {
    let mut s = Supervision::start(&vec!["g".to_string()]);
    s.tick(tick(60_000));
    assert!(!s.ready_fired);
    s.tick(tick(60_001));
    assert!(s.ready_fired);
    assert!(!s.tick(Tick { running: true, ..tick(60_500) }).fire_ready);
}

#[test]
fn termination_is_forwarded_once() {
    let mut s = Supervision::start(&vec![]);
    let term = Tick { term: true, ..tick(0) };
    assert!(s.tick(term).forward_term);
    assert!(!s.tick(term).forward_term);
}

#[test]
fn the_end_of_the_child_ends_it_all() {
    let mut s = Supervision::start(&vec!["g".to_string()]);
    let end = Tick {
        ended: Some(Ended { code: Some(7), signal: None }),
        term: true,
        running: true,
        elapsed: 0,
        changed: true,
    };
    let todo = s.tick(end);
    assert_eq!(todo.finish, Some(7));
    assert!(!todo.forward_term && !todo.fire_ready && !todo.reload);
    assert!(s.tick(Tick { changed: true, ..tick(0) }).reload);
}

#[test]
fn one_change_is_noticed_at_a_time() {
    let mut last = vec![Some(1), None, Some(3)];
    let now = vec![Some(2), Some(9), Some(3)];
    assert!(notice_change(&mut last, &now));
    assert_eq!(last, vec![Some(2), None, Some(3)]);
    assert!(notice_change(&mut last, &now));
    assert_eq!(last, now);
    assert!(!notice_change(&mut last, &now));
}
