use vstd::prelude::*;

use crate::graph::{sources_into, Path};
use crate::network::{
    apply_report, current_of, edge_of, empty_region, find_predecessor, first_match_from, park,
    make_room, parked_at, record_edge, same_run, step, RegionView, MAX_PARKED,
};
use crate::report::{decode_spec, Telegram, Tram, UpdateError};

verus! {

/// The state after ingesting `reports` in order, each telegram with the
/// wall-clock time at which it is ingested.
pub open spec fn replay(v: RegionView, paths: Seq<Path>, reports: Seq<(Telegram, i64)>) -> RegionView
    decreases reports.len(),
{
    if reports.len() == 0 {
        v
    } else {
        step(replay(v, paths, reports.drop_last()), paths, reports.last().0, reports.last().1)
    }
}

/// Last write wins: after a sequence of valid reports of one (line, run), the
/// current record of that run is the one decoded from the last report.
pub proof fn lemma_last_write_wins(v: RegionView, paths: Seq<Path>, reports: Seq<(Telegram, i64)>)
    requires
        reports.len() > 0,
        forall|i: int|
            0 <= i < reports.len() ==> #[trigger] decode_spec(reports[i].0, reports[i].1) is Ok,
        forall|i: int|
            0 <= i < reports.len() ==> (#[trigger] reports[i]).0.line == reports.last().0.line
                && reports[i].0.run_number == reports.last().0.run_number,
    ensures
        ({
            let last = decode_spec(reports.last().0, reports.last().1)->Ok_0;
            current_of(replay(v, paths, reports).current, last.line, last.run_number) == Some(last)
        }),
{
    let n = reports.len() - 1;
    assert(decode_spec(reports[n].0, reports[n].1) is Ok);
}

/// A telegram without a line, a run number or a delay is rejected as
/// undecodable and leaves the region exactly as it was.
pub proof fn lemma_missing_field_rejected(v: RegionView, paths: Seq<Path>, t: Telegram, now: i64)
    requires
        t.line is None || t.run_number is None || t.delay is None,
    ensures
        decode_spec(t, now) == Err::<Tram, UpdateError>(UpdateError::Decode),
        step(v, paths, t, now) == v,
{
}

/// A queue without an entry of (`line`, `run`) from `j` on has no match there.
proof fn lemma_no_match_in_queue(queue: Seq<Tram>, line: u32, run: u32, j: int)
    requires
        0 <= j,
        forall|i: int| j <= i < queue.len() ==> !same_run(#[trigger] queue[i], line, run),
    ensures
        first_match_from(queue, line, run, j) is None,
    decreases queue.len() - j,
{
    if j < queue.len() {
        lemma_no_match_in_queue(queue, line, run, j + 1);
    }
}

/// Whether point `u` holds no parked report of (`line`, `run`).
pub open spec fn no_match_at(pending: Map<i32, Seq<Tram>>, u: i32, line: u32, run: u32) -> bool {
    !pending.contains_key(u) || first_match_from(pending[u], line, run, 0) is None
}

/// Scanning points none of which holds a parked report of the run finds
/// nothing.
proof fn lemma_no_predecessor(
    pending: Map<i32, Seq<Tram>>,
    ups: Seq<i32>,
    line: u32,
    run: u32,
    k: int,
)
    requires
        0 <= k,
        forall|j: int| k <= j < ups.len() ==> no_match_at(pending, #[trigger] ups[j], line, run),
    ensures
        find_predecessor(pending, ups, line, run, k) is None,
    decreases ups.len() - k,
{
    if k < ups.len() {
        lemma_no_predecessor(pending, ups, line, run, k + 1);
    }
}

/// Where `a` is scanned at `m`, holds a parked report of the run, and no
/// other point scanned before `m` does, the predecessor is found at `a`.
proof fn lemma_single_source(
    pending: Map<i32, Seq<Tram>>,
    ups: Seq<i32>,
    line: u32,
    run: u32,
    k: int,
    a: i32,
    m: int,
    i: int,
)
    requires
        0 <= k <= m < ups.len(),
        ups[m] == a,
        pending.contains_key(a),
        first_match_from(pending[a], line, run, 0) == Some(i),
        forall|j: int| k <= j < m && #[trigger] ups[j] != a ==> no_match_at(pending, ups[j], line, run),
    ensures
        find_predecessor(pending, ups, line, run, k) == Some((a, i)),
    decreases m - k,
{
    if ups[k] != a {
        lemma_single_source(pending, ups, line, run, k + 1, a, m, i);
    }
}

/// Predecessor matching: in a fresh region whose graph connects point A to
/// point B, a report R1 at A followed by a report R2 at B of the same line
/// and run, no earlier than R1, records the travel time from (A, R1's
/// direction) as the difference of their times and consumes R1 from A's
/// queue, where only R2 remains if A and B are one point.
pub proof fn lemma_predecessor_matched(paths: Seq<Path>, r1: Telegram, n1: i64, r2: Telegram, n2: i64)
    requires
        sources_into(paths, r2.reporting_point).contains(r1.reporting_point),
        decode_spec(r1, n1) is Ok,
        decode_spec(r2, n2) is Ok,
        r1.line == r2.line,
        r1.run_number == r2.run_number,
        r1.time <= r2.time,
    ensures
        ({
            let v = replay(empty_region(), paths, seq![(r1, n1), (r2, n2)]);
            &&& edge_of(v.edges, r1.reporting_point, r1.direction as u32) == Some(
                (r2.time - r1.time) as u64,
            )
            &&& parked_at(v.pending, r1.reporting_point) == if r1.reporting_point == r2.reporting_point {
                seq![decode_spec(r2, n2)->Ok_0]
            } else {
                Seq::<Tram>::empty()
            }
        }),
{
    let s = seq![(r1, n1), (r2, n2)];
    assert(s.drop_last() =~= seq![(r1, n1)]);
    assert(seq![(r1, n1)].drop_last() =~= Seq::<(Telegram, i64)>::empty());
    let a = r1.reporting_point;
    let b = r2.reporting_point;
    let t1 = decode_spec(r1, n1)->Ok_0;
    let t2 = decode_spec(r2, n2)->Ok_0;
    let e = empty_region();
    // First report: nothing is parked yet, so R1 finds no predecessor.
    assert(make_room(e.pending, a) == e.pending);
    let ups1 = sources_into(paths, a);
    assert forall|j: int| 0 <= j < ups1.len() implies no_match_at(e.pending, #[trigger] ups1[j], t1.line, t1.run_number) by {}
    lemma_no_predecessor(e.pending, ups1, t1.line, t1.run_number, 0);
    let v1 = replay(e, paths, seq![(r1, n1)]);
    assert(replay(e, paths, Seq::<(Telegram, i64)>::empty()) == e);
    assert(seq![(r1, n1)].last() == (r1, n1));
    assert(v1 == step(e, paths, r1, n1));
    assert(v1 == apply_report(e, paths, t1));
    let p1 = v1.pending;
    assert(p1 =~= map![a => seq![t1]]);
    assert(v1.edges == e.edges);
    // Second report: R1 is the only parked report, and it sits upstream of B.
    assert(make_room(p1, b) == p1);
    let ups2 = sources_into(paths, b);
    let m = choose|m: int| 0 <= m < ups2.len() && ups2[m] == a;
    assert(same_run(seq![t1][0], t2.line, t2.run_number));
    assert(first_match_from(p1[a], t2.line, t2.run_number, 0) == Some(0int));
    assert forall|j: int| 0 <= j < m && #[trigger] ups2[j] != a implies no_match_at(p1, ups2[j], t2.line, t2.run_number) by {}
    lemma_single_source(p1, ups2, t2.line, t2.run_number, 0, a, m, 0);
    let v2 = replay(e, paths, s);
    assert(s.last() == (r2, n2));
    assert(v2 == step(v1, paths, r2, n2));
    assert(v2 == apply_report(v1, paths, t2));
    assert(v2.edges == record_edge(e.edges, a, t1.direction, (t2.time_stamp - t1.time_stamp) as u64));
    let consumed = p1.insert(a, p1[a].remove(0));
    assert(p1[a].remove(0) =~= Seq::<Tram>::empty());
    assert(v2.pending == park(consumed, t2));
    if a == b {
        assert(v2.pending[a] =~= seq![t2]);
    } else {
        assert(v2.pending[a] =~= Seq::<Tram>::empty());
    }
}

/// A valid report for which no point upstream of its own holds a parked
/// report of its run is accepted, leaves every travel time as it was, and is
/// parked at its point (after room is made there).
pub proof fn lemma_unmatched_keeps_edges(v: RegionView, paths: Seq<Path>, t: Telegram, now: i64)
    requires
        decode_spec(t, now) is Ok,
        forall|u: i32, i: int|
            sources_into(paths, t.reporting_point).contains(u) && 0 <= i < parked_at(v.pending, u).len()
                ==> !same_run(
                #[trigger] parked_at(v.pending, u)[i],
                decode_spec(t, now)->Ok_0.line,
                decode_spec(t, now)->Ok_0.run_number,
            ),
    ensures
        step(v, paths, t, now).edges == v.edges,
        step(v, paths, t, now).pending == park(
            make_room(v.pending, t.reporting_point),
            decode_spec(t, now)->Ok_0,
        ),
{
    let tram = decode_spec(t, now)->Ok_0;
    let p = make_room(v.pending, tram.reporting_point);
    let ups = sources_into(paths, tram.reporting_point);
    assert forall|j: int| 0 <= j < ups.len() implies no_match_at(p, #[trigger] ups[j], tram.line, tram.run_number) by {
        let u = ups[j];
        assert(ups.contains(u));
        if p.contains_key(u) {
            let q = v.pending[u];
            assert(q == parked_at(v.pending, u));
            assert forall|i: int| 0 <= i < p[u].len() implies !same_run(#[trigger] p[u][i], tram.line, tram.run_number) by {
                if u == tram.reporting_point && q.len() >= MAX_PARKED {
                    assert(p[u][i] == q[i + 1]);
                    assert(!same_run(q[i + 1], tram.line, tram.run_number));
                } else {
                    assert(p[u][i] == q[i]);
                    assert(!same_run(q[i], tram.line, tram.run_number));
                }
            }
            lemma_no_match_in_queue(p[u], tram.line, tram.run_number, 0);
        }
    }
    lemma_no_predecessor(p, ups, tram.line, tram.run_number, 0);
}

/// A match found in a queue is an index of that queue.
proof fn lemma_match_in_range(queue: Seq<Tram>, line: u32, run: u32, j: int)
    ensures
        first_match_from(queue, line, run, j) matches Some(i) ==> j <= i < queue.len(),
    decreases queue.len() - j,
{
    if 0 <= j < queue.len() && !same_run(queue[j], line, run) {
        lemma_match_in_range(queue, line, run, j + 1);
    }
}

/// A predecessor found is an entry of a parked queue.
proof fn lemma_predecessor_in_range(
    pending: Map<i32, Seq<Tram>>,
    ups: Seq<i32>,
    line: u32,
    run: u32,
    k: int,
)
    ensures
        find_predecessor(pending, ups, line, run, k) matches Some((w, i)) ==> pending.contains_key(w)
            && 0 <= i < pending[w].len(),
    decreases ups.len() - k,
{
    if 0 <= k < ups.len() {
        let u = ups[k];
        if pending.contains_key(u) {
            lemma_match_in_range(pending[u], line, run, 0);
        }
        lemma_predecessor_in_range(pending, ups, line, run, k + 1);
    }
}

/// Every parked report sits in the queue of its own reporting point.
pub open spec fn parked_at_own_point(v: RegionView) -> bool {
    forall|u: i32, i: int|
        #![trigger v.pending[u][i]]
        v.pending.contains_key(u) && 0 <= i < v.pending[u].len() ==> v.pending[u][i].reporting_point == u
}

/// A fresh region parks nothing, and ingesting any telegram keeps every
/// parked report in the queue of its own point.
pub proof fn lemma_parking_invariant(v: RegionView, paths: Seq<Path>, t: Telegram, now: i64)
    requires
        parked_at_own_point(v),
    ensures
        parked_at_own_point(empty_region()),
        parked_at_own_point(step(v, paths, t, now)),
{
    if let Ok(tram) = decode_spec(t, now) {
        let pt = tram.reporting_point;
        let roomy = make_room(v.pending, pt);
        assert(parked_at_own_point(RegionView { pending: roomy, ..v })) by {
            assert forall|u: i32, i: int| roomy.contains_key(u) && 0 <= i < roomy[u].len() implies #[trigger] roomy[u][i].reporting_point == u by {
                if u == pt && v.pending[u].len() >= MAX_PARKED {
                    assert(roomy[u][i] == v.pending[u][i + 1]);
                } else {
                    assert(roomy[u][i] == v.pending[u][i]);
                }
            }
        }
        let consumed = match find_predecessor(roomy, sources_into(paths, pt), tram.line, tram.run_number, 0) {
            None => roomy,
            Some((w, k)) => roomy.insert(w, roomy[w].remove(k)),
        };
        assert forall|u: i32, i: int| consumed.contains_key(u) && 0 <= i < consumed[u].len() implies #[trigger] consumed[u][i].reporting_point == u by {
            match find_predecessor(roomy, sources_into(paths, pt), tram.line, tram.run_number, 0) {
                None => {
                    assert(consumed[u][i] == roomy[u][i]);
                },
                Some((w, k)) => {
                    lemma_predecessor_in_range(roomy, sources_into(paths, pt), tram.line, tram.run_number, 0);
                    if u == w {
                        if i < k {
                            assert(consumed[u][i] == roomy[w][i]);
                        } else {
                            assert(consumed[u][i] == roomy[w][i + 1]);
                        }
                    } else {
                        assert(consumed[u][i] == roomy[u][i]);
                    }
                },
            }
        }
        let r = step(v, paths, t, now);
        assert(r.pending == park(consumed, tram));
        assert forall|u: i32, i: int| r.pending.contains_key(u) && 0 <= i < r.pending[u].len() implies #[trigger] r.pending[u][i].reporting_point == u by {
            if u == pt {
                if consumed.contains_key(u) && i < consumed[u].len() {
                    assert(r.pending[u][i] == consumed[u][i]);
                }
            } else {
                assert(r.pending[u][i] == consumed[u][i]);
            }
        }
    }
}

/// Replaying one sequence of reports from a fresh region twice yields the
/// same current records, parked reports and travel times.
pub proof fn lemma_replay_deterministic(
    paths: Seq<Path>,
    reports: Seq<(Telegram, i64)>,
    first: RegionView,
    second: RegionView,
)
    requires
        first == replay(empty_region(), paths, reports),
        second == replay(empty_region(), paths, reports),
    ensures
        first.current == second.current,
        first.pending == second.pending,
        first.edges == second.edges,
{
}

} // verus!
