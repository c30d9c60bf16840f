use trekkie_state::{ConnectionPool, Filter, Outcome, RequestStatus, Tram, UserState};

fn tram(region: i64, point: i32, line: u32) -> Tram {
    Tram {
        last_update: 0,
        region,
        reporting_point: point,
        line,
        run_number: 1,
        time_stamp: 0,
        delayed: 0,
        direction: 0,
        request_status: RequestStatus::PreRegistration,
    }
}

#[test]
fn filter_on_lines() {
    let f = Filter { regions: vec![], junctions: vec![], lines: vec![5] };
    assert!(f.fits(&tram(0, 10, 5)));
    assert!(!f.fits(&tram(0, 10, 6)));
}

#[test]
fn empty_filter_admits_everything() {
    let f = Filter::new();
    assert!(f.fits(&tram(0, 10, 5)));
    assert!(f.fits(&tram(9, -3, 6)));
}

#[test]
fn filter_on_region_and_junction() {
    let f = Filter { regions: vec![0, 1], junctions: vec![10], lines: vec![] };
    assert!(f.fits(&tram(1, 10, 5)));
    assert!(!f.fits(&tram(2, 10, 5)));
    assert!(!f.fits(&tram(1, 11, 5)));
}

#[test]
fn new_user_state_is_live_and_unfiltered() {
    let u = UserState::new();
    assert!(u.filter.is_none());
    assert!(!u.dead);
}

#[test]
fn subscriber_receives_only_its_lines() {
    let mut pool = ConnectionPool::new();
    assert_eq!(pool.push(), Some(0));
    assert_eq!(pool.push(), Some(1));
    pool.set_filter(1, Filter { regions: vec![], junctions: vec![], lines: vec![5] });
    assert_eq!(pool.recipients(&tram(0, 10, 5)), vec![true, true]);
    assert_eq!(pool.recipients(&tram(0, 10, 6)), vec![true, false]);
}

#[test]
fn dead_subscriber_is_evicted() {
    let mut pool = ConnectionPool::new();
    pool.push();
    pool.push();
    pool.push();
    pool.finish_publish(vec![Outcome::Alive, Outcome::Failed, Outcome::Alive]);
    assert_eq!(pool.len(), 2);
    assert_eq!(pool.id_at(0), 0);
    assert_eq!(pool.id_at(1), 2);
    assert_eq!(pool.recipients(&tram(0, 10, 5)), vec![true, true]);
}

#[test]
fn several_dead_subscribers_are_evicted_in_one_pass() {
    let mut pool = ConnectionPool::new();
    for _ in 0..5 {
        pool.push();
    }
    pool.finish_publish(vec![Outcome::Failed, Outcome::Alive, Outcome::Failed, Outcome::Failed, Outcome::Alive]);
    assert_eq!(pool.len(), 2);
    assert_eq!(pool.id_at(0), 1);
    assert_eq!(pool.id_at(1), 4);
    assert_eq!(pool.push(), Some(5));
}

#[test]
fn publish_pass_applies_outcomes() {
    let mut pool = ConnectionPool::new();
    for _ in 0..4 {
        pool.push();
    }
    let lines_six = Filter { regions: vec![], junctions: vec![], lines: vec![6] };
    pool.finish_publish(vec![Outcome::Alive, Outcome::Failed, Outcome::Refiltered(lines_six), Outcome::Failed]);
    assert_eq!(pool.len(), 2);
    assert_eq!(pool.id_at(0), 0);
    assert_eq!(pool.id_at(1), 2);
    assert_eq!(pool.recipients(&tram(0, 10, 5)), vec![true, false]);
    assert_eq!(pool.recipients(&tram(0, 10, 6)), vec![true, true]);
}

#[test]
fn timed_out_subscriber_is_absent_next_pass() {
    let mut pool = ConnectionPool::new();
    pool.push();
    pool.push();
    assert_eq!(pool.recipients(&tram(0, 10, 5)), vec![true, true]);
    pool.finish_publish(vec![Outcome::Failed, Outcome::Alive]);
    assert_eq!(pool.len(), 1);
    assert_eq!(pool.id_at(0), 1);
    assert_eq!(pool.recipients(&tram(0, 10, 5)), vec![true]);
}
