use std::collections::HashMap;
use vstd::prelude::*;
use vstd::std_specs::hash::group_hash_axioms;

use crate::graph::{destination_of, sources_into, Graph, Path};
use crate::api::RequestVehicleInformation;
use crate::report::{decode_spec, Telegram, Tram, UpdateError};

verus! {

broadcast use group_hash_axioms;

/// The abstract contents of a region: current vehicle per (line, run), the
/// reports parked at each point awaiting a successor, and the latest travel
/// time observed from each (point, direction).
pub struct RegionView {
    pub current: Map<u32, Map<u32, Tram>>,
    pub pending: Map<i32, Seq<Tram>>,
    pub edges: Map<i32, Map<u32, u64>>,
}

/// Whether `t` belongs to the service (`line`, `run`).
pub open spec fn same_run(t: Tram, line: u32, run: u32) -> bool {
    t.line == line && t.run_number == run
}

/// `current` with `t` as the record of its (line, run).
pub open spec fn upsert_run(current: Map<u32, Map<u32, Tram>>, t: Tram) -> Map<u32, Map<u32, Tram>> {
    let runs = if current.contains_key(t.line) {
        current[t.line]
    } else {
        Map::empty()
    };
    current.insert(t.line, runs.insert(t.run_number, t))
}

/// The most reports a point holds while they await a successor; when a
/// point's queue is full, its oldest report is dropped to make room.
pub const MAX_PARKED: usize = 64;

/// `pending` with the oldest report at `point` dropped when that point
/// already holds `MAX_PARKED` reports.
pub open spec fn make_room(pending: Map<i32, Seq<Tram>>, point: i32) -> Map<i32, Seq<Tram>> {
    if pending.contains_key(point) && pending[point].len() >= MAX_PARKED {
        pending.insert(point, pending[point].drop_first())
    } else {
        pending
    }
}

/// `pending` with `t` appended to the queue of its own point.
pub open spec fn park(pending: Map<i32, Seq<Tram>>, t: Tram) -> Map<i32, Seq<Tram>> {
    let queue = if pending.contains_key(t.reporting_point) {
        pending[t.reporting_point]
    } else {
        Seq::empty()
    };
    pending.insert(t.reporting_point, queue.push(t))
}

/// `edges` with `secs` as the travel time from (`point`, `direction`).
pub open spec fn record_edge(
    edges: Map<i32, Map<u32, u64>>,
    point: i32,
    direction: u32,
    secs: u64,
) -> Map<i32, Map<u32, u64>> {
    let dirs = if edges.contains_key(point) {
        edges[point]
    } else {
        Map::empty()
    };
    edges.insert(point, dirs.insert(direction, secs))
}

/// The first index at or after `j` whose entry belongs to (`line`, `run`).
pub open spec fn first_match_from(queue: Seq<Tram>, line: u32, run: u32, j: int) -> Option<int>
    decreases queue.len() - j,
{
    if j < 0 || j >= queue.len() {
        None
    } else if same_run(queue[j], line, run) {
        Some(j)
    } else {
        first_match_from(queue, line, run, j + 1)
    }
}

/// The first parked report of (`line`, `run`), scanning the points `ups` from
/// index `k` on, and within each point its queue in insertion order: the
/// point and the index in its queue.
pub open spec fn find_predecessor(
    pending: Map<i32, Seq<Tram>>,
    ups: Seq<i32>,
    line: u32,
    run: u32,
    k: int,
) -> Option<(i32, int)>
    decreases ups.len() - k,
{
    if k < 0 || k >= ups.len() {
        None
    } else {
        let u = ups[k];
        let here = if pending.contains_key(u) {
            first_match_from(pending[u], line, run, 0)
        } else {
            None
        };
        match here {
            Some(i) => Some((u, i)),
            None => find_predecessor(pending, ups, line, run, k + 1),
        }
    }
}

/// Whether a record written at `t.last_update` is younger than the freshness
/// window (300 seconds) at wall-clock time `now`.
pub open spec fn is_fresh(t: Tram, now: i64) -> bool {
    now - t.last_update < 300
}

/// The runs of `runs` whose record is fresh at `now`.
pub open spec fn fresh_runs(runs: Map<u32, Tram>, now: i64) -> Map<u32, Tram> {
    Map::new(|r: u32| runs.contains_key(r) && is_fresh(runs[r], now), |r: u32| runs[r])
}

/// Every line of `current`, each pruned to its runs that are fresh at `now`.
pub open spec fn fresh_current(current: Map<u32, Map<u32, Tram>>, now: i64) -> Map<
    u32,
    Map<u32, Tram>,
> {
    Map::new(|l: u32| current.contains_key(l), |l: u32| fresh_runs(current[l], now))
}

/// The current record of (`line`, `run`), if any.
pub open spec fn current_of(current: Map<u32, Map<u32, Tram>>, line: u32, run: u32) -> Option<Tram> {
    if current.contains_key(line) && current[line].contains_key(run) {
        Some(current[line][run])
    } else {
        None
    }
}

/// The reports parked at `point`.
pub open spec fn parked_at(pending: Map<i32, Seq<Tram>>, point: i32) -> Seq<Tram> {
    if pending.contains_key(point) {
        pending[point]
    } else {
        Seq::empty()
    }
}

/// The latest travel time observed from (`point`, `direction`), if any.
pub open spec fn edge_of(edges: Map<i32, Map<u32, u64>>, point: i32, direction: u32) -> Option<u64> {
    if edges.contains_key(point) && edges[point].contains_key(direction) {
        Some(edges[point][direction])
    } else {
        None
    }
}

/// The state after ingesting the decoded record `t` over a graph with
/// connections `paths`: room is made at `t`'s point, the first report of
/// `t`'s run parked upstream (before `t` itself is parked) is consumed and,
/// when it is not later than `t`, gives the travel time of its (point,
/// direction); then `t` is parked at its point and becomes its run's current
/// record.
pub open spec fn apply_report(v: RegionView, paths: Seq<Path>, t: Tram) -> RegionView {
    let roomy = make_room(v.pending, t.reporting_point);
    let current = upsert_run(v.current, t);
    match find_predecessor(
        roomy,
        sources_into(paths, t.reporting_point),
        t.line,
        t.run_number,
        0,
    ) {
        None => RegionView { current, pending: park(roomy, t), edges: v.edges },
        Some((u, i)) => {
            let p = roomy[u][i];
            RegionView {
                current,
                pending: park(roomy.insert(u, roomy[u].remove(i)), t),
                edges: if t.time_stamp >= p.time_stamp {
                    record_edge(v.edges, p.reporting_point, p.direction, (t.time_stamp - p.time_stamp) as u64)
                } else {
                    v.edges
                },
            }
        },
    }
}

/// What ingesting `t` at wall-clock time `now` does to a region.
pub open spec fn step(v: RegionView, paths: Seq<Path>, t: Telegram, now: i64) -> RegionView {
    match decode_spec(t, now) {
        Ok(tram) => apply_report(v, paths, tram),
        Err(_) => v,
    }
}

/// A region without any vehicle, parked report or travel time.
pub open spec fn empty_region() -> RegionView {
    RegionView { current: Map::empty(), pending: Map::empty(), edges: Map::empty() }
}

/// The live state of one region.
pub struct Network {
    lines: HashMap<u32, HashMap<u32, Tram>>,
    positions: HashMap<i32, Vec<Tram>>,
    edges: HashMap<i32, HashMap<u32, u64>>,
    graph: Graph,
}

impl View for Network {
    type V = RegionView;

    closed spec fn view(&self) -> RegionView {
        RegionView {
            current: self.lines@.map_values(|m: HashMap<u32, Tram>| m@),
            pending: self.positions@.map_values(|q: Vec<Tram>| q@),
            edges: self.edges@.map_values(|m: HashMap<u32, u64>| m@),
        }
    }
}

impl Network {
    /// The connections of the region's graph.
    pub closed spec fn paths(&self) -> Seq<Path> {
        self.graph@
    }

    /// The region's graph has unique exits.
    pub closed spec fn wf(&self) -> bool {
        self.graph.wf()
    }

    /// An empty region over `graph`.
    pub fn new(graph: Graph) -> (n: Network)
        requires
            graph.wf(),
        ensures
            n.wf(),
            n@ == empty_region(),
            n.paths() == graph@,
    {
        let n = Network {
            lines: HashMap::new(),
            positions: HashMap::new(),
            edges: HashMap::new(),
            graph,
        };
        assert(n@.current =~= Map::empty());
        assert(n@.pending =~= Map::empty());
        assert(n@.edges =~= Map::empty());
        n
    }

    /// The region's graph.
    pub fn graph(&self) -> (g: &Graph)
        ensures
            g@ == self.paths(),
            self.wf() ==> g.wf(),
    {
        &self.graph
    }

    /// Where the vehicle of (`line`, `run_number`) last reported.
    pub fn query_tram(&self, line: &u32, run_number: &u32) -> (r: Option<i32>)
        ensures
            r == (match current_of(self@.current, *line, *run_number) {
                Some(t) => Some(t.reporting_point),
                None => None,
            }),
    {
        match self.query_vehicle(&RequestVehicleInformation { line: *line, run: *run_number }) {
            Some(t) => Some(t.reporting_point),
            None => None,
        }
    }

    /// The current record of the requested (line, run).
    pub fn query_vehicle(&self, request: &RequestVehicleInformation) -> (r: Option<Tram>)
        ensures
            r == current_of(self@.current, request.line, request.run),
    {
        match self.lines.get(&request.line) {
            Some(runs) => match runs.get(&request.run) {
                Some(t) => Some(*t),
                None => None,
            },
            None => None,
        }
    }

    /// The reports parked at `reporting_point`, oldest first.
    pub fn query_position(&mut self, reporting_point: &i32) -> (r: Vec<Tram>)
        ensures
            final(self)@ == old(self)@,
            final(self).paths() == old(self).paths(),
            final(self).wf() == old(self).wf(),
            r@ == parked_at(old(self)@.pending, *reporting_point),
    {
        let mut r: Vec<Tram> = Vec::new();
        match self.positions.get(reporting_point) {
            Some(queue) => {
                let mut i: usize = 0;
                while i < queue.len()
                    invariant
                        i <= queue@.len(),
                        r@ == queue@.take(i as int),
                    decreases queue@.len() - i,
                {
                    r.push(queue[i]);
                    i = i + 1;
                    assert(r@ =~= queue@.take(i as int));
                }
                assert(queue@.take(i as int) =~= queue@);
            },
            None => {},
        }
        r
    }

    /// The latest travel time observed when leaving `point` in `direction`,
    /// with the point that direction leads to.
    pub fn travel_time(&self, point: i32, direction: u32) -> (r: Option<(u64, i32)>)
        requires
            self.wf(),
        ensures
            r == (match (edge_of(self@.edges, point, direction), destination_of(self.paths(), point, direction)) {
                (Some(secs), Some(next)) => Some((secs, next)),
                _ => None,
            }),
    {
        let secs = match self.edges.get(&point) {
            Some(dirs) => match dirs.get(&direction) {
                Some(s) => *s,
                None => {
                    return None;
                },
            },
            None => {
                return None;
            },
        };
        match self.graph.destination(point, direction) {
            Some(next) => Some((secs, next)),
            None => None,
        }
    }

    /// Every line of the region with its runs whose record is younger than
    /// the freshness window at wall-clock time `now`.
    pub fn fresh_lines(&self, now: i64) -> (r: HashMap<u32, HashMap<u32, Tram>>)
        ensures
            r@.map_values(|m: HashMap<u32, Tram>| m@) == fresh_current(self@.current, now),
    {
        let mut out: HashMap<u32, HashMap<u32, Tram>> = HashMap::new();
        for (line, runs) in it: self.lines.iter()
            invariant
                forall|j: int|
                    0 <= j < it.seq().len() ==> self.lines@.contains_key(*(#[trigger] it.seq()[j]).0)
                        && self.lines@[*it.seq()[j].0] == *it.seq()[j].1,
                forall|l: u32|
                    #[trigger] out@.contains_key(l) ==> self.lines@.contains_key(l) && out@[l]@
                        == fresh_runs(self.lines@[l]@, now),
                forall|l: u32|
                    #[trigger] self.lines@.contains_key(l) && !out@.contains_key(l) ==> exists|j: int|
                        it.index() <= j < it.seq().len() && #[trigger] it.seq()[j] == (&l, &self.lines@[l]),
        {
            proof {
                assert(it.seq()[it.index()] == (line, runs));
            }
            let fresh = fresh_runs_of(runs, now);
            out.insert(*line, fresh);
        }
        let ghost cur = self@.current;
        assert(out@.map_values(|m: HashMap<u32, Tram>| m@) =~= fresh_current(cur, now));
        out
    }

    /// Ingests a telegram, stamping the record with wall-clock time `now`.
    /// A telegram that does not decode leaves the region untouched.
    pub fn update_at(&mut self, telegram: &Telegram, now: i64) -> (r: Result<Tram, UpdateError>)
        requires
            old(self).wf(),
        ensures
            final(self).wf(),
            final(self).paths() == old(self).paths(),
            r == decode_spec(*telegram, now),
            final(self)@ == step(old(self)@, old(self).paths(), *telegram, now),
    {
        let tram = match telegram.decode(now) {
            Ok(t) => t,
            Err(e) => {
                return Err(e);
            },
        };
        let ghost v0 = self@;
        let point = tram.reporting_point;
        match self.positions.remove(&point) {
            Some(mut queue) => {
                if queue.len() >= MAX_PARKED {
                    queue.remove(0);
                }
                self.positions.insert(point, queue);
            },
            None => {},
        }
        assert(self@.pending =~= make_room(v0.pending, point));

        let ups = self.graph.upstream(point);
        let found = self.find_predecessor(&ups, tram.line, tram.run_number);
        let ghost pending1 = self@.pending;
        match found {
            Some((u, i)) => {
                let mut q = match self.positions.remove(&u) {
                    Some(q) => q,
                    None => Vec::new(),
                };
                let p = q.remove(i);
                self.positions.insert(u, q);
                assert(self@.pending =~= pending1.insert(u, pending1[u].remove(i as int)));
                if tram.time_stamp >= p.time_stamp {
                    self.record_edge(p.reporting_point, p.direction, tram.time_stamp - p.time_stamp);
                }
            },
            None => {},
        }
        let ghost pending2 = self@.pending;
        let mut queue = match self.positions.remove(&point) {
            Some(q) => q,
            None => Vec::new(),
        };
        queue.push(tram);
        self.positions.insert(point, queue);
        assert(self@.pending =~= park(pending2, tram));
        self.upsert_run(tram);
        Ok(tram)
    }

    /// The first parked report of (`line`, `run`) among the points `ups`.
    fn find_predecessor(&self, ups: &Vec<i32>, line: u32, run: u32) -> (r: Option<(i32, usize)>)
        ensures
            match r {
                None => find_predecessor(self@.pending, ups@, line, run, 0) is None,
                Some((u, i)) => find_predecessor(self@.pending, ups@, line, run, 0) == Some(
                    (u, i as int),
                ) && self@.pending.contains_key(u) && i < self@.pending[u].len(),
            },
    {
        let mut k: usize = 0;
        while k < ups.len()
            invariant
                k <= ups@.len(),
                find_predecessor(self@.pending, ups@, line, run, 0) == find_predecessor(
                    self@.pending,
                    ups@,
                    line,
                    run,
                    k as int,
                ),
            decreases ups@.len() - k,
        {
            let u = ups[k];
            match self.positions.get(&u) {
                Some(q) => {
                    match first_match(q, line, run) {
                        Some(i) => {
                            return Some((u, i));
                        },
                        None => {},
                    }
                },
                None => {},
            }
            k = k + 1;
        }
        None
    }

    fn record_edge(&mut self, point: i32, direction: u32, secs: u64)
        ensures
            final(self).graph == old(self).graph,
            final(self)@ == (RegionView {
                edges: record_edge(old(self)@.edges, point, direction, secs),
                ..old(self)@
            }),
    {
        let mut dirs = match self.edges.remove(&point) {
            Some(d) => d,
            None => HashMap::new(),
        };
        dirs.insert(direction, secs);
        self.edges.insert(point, dirs);
        assert(self@.edges =~= record_edge(old(self)@.edges, point, direction, secs));
    }

    fn upsert_run(&mut self, t: Tram)
        ensures
            final(self).graph == old(self).graph,
            final(self)@ == (RegionView { current: upsert_run(old(self)@.current, t), ..old(self)@ }),
    {
        let mut runs = match self.lines.remove(&t.line) {
            Some(r) => r,
            None => HashMap::new(),
        };
        runs.insert(t.run_number, t);
        self.lines.insert(t.line, runs);
        assert(self@.current =~= upsert_run(old(self)@.current, t));
    }
}

/// The runs of `runs` whose record is fresh at `now`.
fn fresh_runs_of(runs: &HashMap<u32, Tram>, now: i64) -> (r: HashMap<u32, Tram>)
    ensures
        r@ == fresh_runs(runs@, now),
{
    let mut out: HashMap<u32, Tram> = HashMap::new();
    for (run, t) in it: runs.iter()
        invariant
            forall|j: int|
                0 <= j < it.seq().len() ==> runs@.contains_key(*(#[trigger] it.seq()[j]).0)
                    && runs@[*it.seq()[j].0] == *it.seq()[j].1,
            forall|r: u32|
                #[trigger] out@.contains_key(r) ==> runs@.contains_key(r) && out@[r] == runs@[r]
                    && is_fresh(runs@[r], now),
            forall|r: u32|
                #[trigger] runs@.contains_key(r) && is_fresh(runs@[r], now) && !out@.contains_key(r)
                    ==> exists|j: int|
                    it.index() <= j < it.seq().len() && #[trigger] it.seq()[j] == (&r, &runs@[r]),
    {
        proof {
            assert(it.seq()[it.index()] == (run, t));
        }
        if (now as i128) - (t.last_update as i128) < 300 {
            out.insert(*run, *t);
        }
    }
    assert(out@ =~= fresh_runs(runs@, now));
    out
}

/// The index of the first entry of `queue` that belongs to (`line`, `run`).
fn first_match(queue: &Vec<Tram>, line: u32, run: u32) -> (r: Option<usize>)
    ensures
        match r {
            None => first_match_from(queue@, line, run, 0) is None,
            Some(i) => first_match_from(queue@, line, run, 0) == Some(i as int) && i < queue@.len(),
        },
{
    let mut j: usize = 0;
    while j < queue.len()
        invariant
            j <= queue@.len(),
            first_match_from(queue@, line, run, 0) == first_match_from(queue@, line, run, j as int),
        decreases queue@.len() - j,
    {
        if queue[j].line == line && queue[j].run_number == run {
            return Some(j);
        }
        j = j + 1;
    }
    None
}

} // verus!
