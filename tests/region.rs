use trekkie_state::{Graph, Network, RequestStatus, RequestVehicleInformation, State, Telegram, Tram, UpdateError};

fn telegram(region: i64, point: i32, direction: i32, time: u64, line: i32, run: i32) -> Telegram {
    Telegram {
        region,
        time,
        reporting_point: point,
        direction,
        request_status: 1,
        line: Some(line),
        run_number: Some(run),
        delay: Some(-30),
    }
}

fn line_graph() -> Graph {
    let mut g = Graph::new();
    g.add_path(10, 1, 20);
    g.add_path(20, 1, 30);
    g
}

#[test]
fn decode_normalises_fields() {
    let t = telegram(0, 10, 2, 100, 5, 7);
    let r = t.decode(1234).unwrap();
    assert_eq!(
        r,
        Tram {
            last_update: 1234,
            region: 0,
            reporting_point: 10,
            line: 5,
            run_number: 7,
            time_stamp: 100,
            delayed: -30,
            direction: 2,
            request_status: RequestStatus::Registration,
        }
    );
}

#[test]
fn request_status_codes() {
    assert_eq!(RequestStatus::from_code(0), Some(RequestStatus::PreRegistration));
    assert_eq!(RequestStatus::from_code(1), Some(RequestStatus::Registration));
    assert_eq!(RequestStatus::from_code(2), Some(RequestStatus::DeRegistration));
    assert_eq!(RequestStatus::from_code(3), Some(RequestStatus::DoorClosed));
    assert_eq!(RequestStatus::from_code(4), None);
    assert_eq!(RequestStatus::from_code(-1), None);
    assert_eq!(RequestStatus::DoorClosed.code(), 3);
}

#[test]
fn missing_line_is_rejected_without_change() {
    let mut n = Network::new(line_graph());
    n.update_at(&telegram(0, 10, 1, 100, 5, 7), 1000).unwrap();
    let mut bad = telegram(0, 20, 1, 140, 5, 7);
    bad.line = None;
    assert_eq!(n.update_at(&bad, 1000), Err(UpdateError::Decode));
    assert_eq!(n.query_position(&20), Vec::new());
    assert_eq!(n.query_position(&10).len(), 1);
    assert_eq!(n.travel_time(10, 1), None);
    assert_eq!(n.query_tram(&5, &7), Some(10));
}

#[test]
fn missing_run_or_delay_is_rejected() {
    let mut n = Network::new(line_graph());
    let mut no_run = telegram(0, 10, 1, 100, 5, 7);
    no_run.run_number = None;
    assert_eq!(n.update_at(&no_run, 1000), Err(UpdateError::Decode));
    let mut no_delay = telegram(0, 10, 1, 100, 5, 7);
    no_delay.delay = None;
    assert_eq!(n.update_at(&no_delay, 1000), Err(UpdateError::Decode));
    assert_eq!(n.query_position(&10), Vec::new());
    assert_eq!(n.query_tram(&5, &7), None);
}

#[test]
fn unknown_status_is_rejected() {
    let mut n = Network::new(line_graph());
    let mut t = telegram(0, 10, 1, 100, 5, 7);
    t.request_status = 9;
    assert_eq!(n.update_at(&t, 1000), Err(UpdateError::StatusDecode));
    assert_eq!(n.query_position(&10), Vec::new());
    assert_eq!(n.query_tram(&5, &7), None);
}

#[test]
fn last_write_wins() {
    let mut n = Network::new(Graph::new());
    n.update_at(&telegram(0, 10, 1, 100, 5, 7), 1000).unwrap();
    n.update_at(&telegram(0, 40, 2, 150, 5, 7), 1001).unwrap();
    let last = n.update_at(&telegram(0, 30, 3, 200, 5, 7), 1002).unwrap();
    assert_eq!(n.query_tram(&5, &7), Some(30));
    assert_eq!(n.query_vehicle(&RequestVehicleInformation { line: 5, run: 7 }), Some(last));
    assert_eq!(n.query_vehicle(&RequestVehicleInformation { line: 5, run: 8 }), None);
}

#[test]
fn predecessor_gives_travel_time() {
    let mut n = Network::new(line_graph());
    n.update_at(&telegram(0, 10, 1, 100, 5, 7), 1000).unwrap();
    let r2 = n.update_at(&telegram(0, 20, 1, 140, 5, 7), 1040).unwrap();
    assert_eq!(n.travel_time(10, 1), Some((40, 20)));
    assert_eq!(n.query_position(&10), Vec::new());
    assert_eq!(n.query_position(&20), vec![r2]);
}

#[test]
fn third_report_without_predecessor_keeps_edges() {
    let mut n = Network::new(line_graph());
    n.update_at(&telegram(0, 10, 1, 100, 5, 7), 1000).unwrap();
    n.update_at(&telegram(0, 20, 1, 140, 5, 7), 1040).unwrap();
    let r3 = n.update_at(&telegram(0, 20, 1, 200, 5, 7), 1100);
    assert!(r3.is_ok());
    assert_eq!(n.travel_time(10, 1), Some((40, 20)));
    assert_eq!(n.travel_time(20, 1), None);
    assert_eq!(n.query_position(&20).len(), 2);
}

#[test]
fn other_run_is_not_a_predecessor() {
    let mut n = Network::new(line_graph());
    n.update_at(&telegram(0, 10, 1, 100, 5, 8), 1000).unwrap();
    n.update_at(&telegram(0, 20, 1, 140, 5, 7), 1040).unwrap();
    assert_eq!(n.travel_time(10, 1), None);
    assert_eq!(n.query_position(&10).len(), 1);
}

#[test]
fn out_of_order_report_consumes_without_edge() {
    let mut n = Network::new(line_graph());
    n.update_at(&telegram(0, 10, 1, 200, 5, 7), 1000).unwrap();
    n.update_at(&telegram(0, 20, 1, 140, 5, 7), 1040).unwrap();
    assert_eq!(n.travel_time(10, 1), None);
    assert_eq!(n.query_position(&10), Vec::new());
}

#[test]
fn first_parked_report_is_matched() {
    let mut n = Network::new(line_graph());
    let first = n.update_at(&telegram(0, 10, 1, 100, 5, 7), 1000).unwrap();
    let second = n.update_at(&telegram(0, 10, 1, 110, 5, 7), 1010).unwrap();
    assert_eq!(n.query_position(&10), vec![first, second]);
    n.update_at(&telegram(0, 20, 1, 150, 5, 7), 1050).unwrap();
    assert_eq!(n.travel_time(10, 1), Some((50, 20)));
    assert_eq!(n.query_position(&10), vec![second]);
}

#[test]
fn newer_sample_overwrites_travel_time() {
    let mut n = Network::new(line_graph());
    n.update_at(&telegram(0, 10, 1, 100, 5, 7), 1000).unwrap();
    n.update_at(&telegram(0, 20, 1, 140, 5, 7), 1040).unwrap();
    n.update_at(&telegram(0, 10, 1, 300, 6, 1), 1200).unwrap();
    n.update_at(&telegram(0, 20, 1, 325, 6, 1), 1225).unwrap();
    assert_eq!(n.travel_time(10, 1), Some((25, 20)));
}

#[test]
fn freshness_window() {
    let mut n = Network::new(Graph::new());
    n.update_at(&telegram(0, 10, 1, 100, 5, 7), 1000).unwrap();
    let included = n.fresh_lines(1299);
    assert_eq!(included.get(&5).unwrap().len(), 1);
    let excluded = n.fresh_lines(1301);
    assert!(excluded.get(&5).unwrap().is_empty());
    let edge = n.fresh_lines(1300);
    assert!(edge.get(&5).unwrap().is_empty());
}

#[test]
fn freshness_keeps_only_recent_runs() {
    let mut n = Network::new(Graph::new());
    n.update_at(&telegram(0, 10, 1, 100, 5, 7), 1000).unwrap();
    let recent = n.update_at(&telegram(0, 11, 1, 100, 5, 8), 1200).unwrap();
    let view = n.fresh_lines(1400);
    let runs = view.get(&5).unwrap();
    assert_eq!(runs.len(), 1);
    assert_eq!(runs.get(&8), Some(&recent));
    assert!(view.get(&6).is_none());
}

#[test]
fn replay_is_deterministic() {
    let reports = vec![
        (telegram(0, 10, 1, 100, 5, 7), 1000),
        (telegram(0, 20, 1, 140, 5, 7), 1040),
        (telegram(0, 10, 1, 150, 6, 2), 1050),
        (telegram(0, 20, 1, 180, 6, 2), 1080),
        (telegram(0, 30, 1, 200, 5, 7), 1100),
    ];
    let mut a = Network::new(line_graph());
    let mut b = Network::new(line_graph());
    for (t, now) in reports.iter() {
        assert_eq!(a.update_at(t, *now), b.update_at(t, *now));
    }
    assert_eq!(a.fresh_lines(1100), b.fresh_lines(1100));
    for p in [10, 20, 30] {
        assert_eq!(a.query_position(&p), b.query_position(&p));
    }
    assert_eq!(a.travel_time(10, 1), b.travel_time(10, 1));
    assert_eq!(a.travel_time(20, 1), b.travel_time(20, 1));
    assert_eq!(a.travel_time(20, 1), Some((60, 30)));
}

#[test]
fn report_never_matches_itself() {
    let mut g = Graph::new();
    g.add_path(20, 1, 20);
    let mut n = Network::new(g);
    let r = n.update_at(&telegram(0, 20, 1, 100, 5, 7), 1000).unwrap();
    assert_eq!(n.travel_time(20, 1), None);
    assert_eq!(n.query_position(&20), vec![r]);
    let r2 = n.update_at(&telegram(0, 20, 1, 130, 5, 7), 1030).unwrap();
    assert_eq!(n.travel_time(20, 1), Some((30, 20)));
    assert_eq!(n.query_position(&20), vec![r2]);
}

#[test]
fn self_loop_scanned_first_still_finds_upstream_report() {
    let mut g = Graph::new();
    g.add_path(20, 1, 20);
    g.add_path(10, 1, 20);
    let mut n = Network::new(g);
    n.update_at(&telegram(0, 10, 1, 100, 5, 7), 1000).unwrap();
    n.update_at(&telegram(0, 20, 1, 140, 5, 7), 1040).unwrap();
    assert_eq!(n.travel_time(10, 1), Some((40, 20)));
    assert_eq!(n.query_position(&10), Vec::new());
}

#[test]
fn state_routes_by_region() {
    let mut s = State::new();
    s.add_region(3, Network::new(line_graph()));
    assert_eq!(s.ingest_at(&telegram(4, 10, 1, 100, 5, 7), 1000), None);
    let r = s.ingest_at(&telegram(3, 10, 1, 100, 5, 7), 1000);
    assert!(matches!(r, Some(Ok(_))));
    assert_eq!(s.region(3).unwrap().query_tram(&5, &7), Some(10));
    assert!(s.region(4).is_none());
    let mut bad = telegram(3, 10, 1, 100, 5, 7);
    bad.delay = None;
    assert_eq!(s.ingest_at(&bad, 1000), Some(Err(UpdateError::Decode)));
    assert!(matches!(s.ingest_at(&telegram(3, 20, 1, 130, 5, 7), 1030), Some(Ok(_))));
    assert_eq!(s.region(3).unwrap().travel_time(10, 1), Some((30, 20)));
}

#[test]
fn parked_queue_is_bounded() {
    let mut n = Network::new(Graph::new());
    for i in 0..(trekkie_state::network::MAX_PARKED as u64 + 1) {
        n.update_at(&telegram(0, 10, 1, 100 + i, 5, i as i32), 1000).unwrap();
    }
    let parked = n.query_position(&10);
    assert_eq!(parked.len(), trekkie_state::network::MAX_PARKED);
    assert_eq!(parked[0].time_stamp, 101);
    assert_eq!(parked[parked.len() - 1].time_stamp, 100 + trekkie_state::network::MAX_PARKED as u64);
}
