use dirtop::schedule::Scheduler;

#[test]
fn never_more_than_cap_in_flight() {
    let mut s = Scheduler::new(50, 3);
    let mut started = Vec::new();
    let mut peak = 0;
    while !s.is_finished() {
        while let Some(i) = s.start_next() {
            started.push(i);
        }
        peak = peak.max(s.in_flight());
        assert!(s.in_flight() <= 3);
        s.complete();
    }
    assert_eq!(peak, 3);
    assert_eq!(started, (0..50).collect::<Vec<usize>>());
}

#[test]
fn full_schedule_waits_for_a_completion() {
    let mut s = Scheduler::new(5, 2);
    assert_eq!(s.start_next(), Some(0));
    assert_eq!(s.start_next(), Some(1));
    assert_eq!(s.start_next(), None);
    s.complete();
    assert_eq!(s.start_next(), Some(2));
    assert_eq!(s.in_flight(), 2);
}

#[test]
fn no_entries_is_finished_at_once() {
    let mut s = Scheduler::new(0, 4);
    assert!(s.is_finished());
    assert_eq!(s.start_next(), None);
    s.complete();
    assert_eq!(s.in_flight(), 0);
}

#[test]
fn host_cap_is_at_least_one() {
    let mut s = Scheduler::for_host(2);
    assert!(s.cap() >= 1);
    assert_eq!(s.start_next(), Some(0));
}
