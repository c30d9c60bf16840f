use std::collections::HashMap;
use vstd::prelude::*;
use vstd::std_specs::hash::group_hash_axioms;

use crate::graph::Path;
use crate::network::{step, Network, RegionView};
use crate::report::{decode_spec, Telegram, Tram, UpdateError};

verus! {

broadcast use group_hash_axioms;

/// The regions known to the process, each with its own live state. The set
/// of regions is fixed once startup has registered them.
pub struct State {
    regions: HashMap<i64, Network>,
}

impl View for State {
    type V = Map<i64, RegionView>;

    closed spec fn view(&self) -> Map<i64, RegionView> {
        self.regions@.map_values(|n: Network| n@)
    }
}

impl State {
    /// The graph connections of each region.
    pub closed spec fn paths(&self) -> Map<i64, Seq<Path>> {
        self.regions@.map_values(|n: Network| n.paths())
    }

    /// Every region is well formed.
    pub closed spec fn wf(&self) -> bool {
        forall|id: i64| #[trigger] self.regions@.contains_key(id) ==> self.regions@[id].wf()
    }

    /// A store without regions.
    pub fn new() -> (s: State)
        ensures
            s.wf(),
            s@ == Map::<i64, RegionView>::empty(),
            s.paths() == Map::<i64, Seq<Path>>::empty(),
    {
        let s = State { regions: HashMap::new() };
        assert(s@ =~= Map::<i64, RegionView>::empty());
        assert(s.paths() =~= Map::<i64, Seq<Path>>::empty());
        s
    }

    /// Registers region `id` with its state, replacing any earlier one.
    pub fn add_region(&mut self, id: i64, network: Network)
        requires
            old(self).wf(),
            network.wf(),
        ensures
            final(self).wf(),
            final(self)@ == old(self)@.insert(id, network@),
            final(self).paths() == old(self).paths().insert(id, network.paths()),
    {
        self.regions.insert(id, network);
        assert(self@ =~= old(self)@.insert(id, network@));
        assert(self.paths() =~= old(self).paths().insert(id, network.paths()));
    }

    /// The state of region `id`.
    pub fn region(&self, id: i64) -> (r: Option<&Network>)
        requires
            self.wf(),
        ensures
            match r {
                Some(n) => self@.contains_key(id) && n@ == self@[id] && n.paths() == self.paths()[id]
                    && n.wf(),
                None => !self@.contains_key(id),
            },
    {
        self.regions.get(&id)
    }

    /// Ingests a telegram into its region, stamping the record with
    /// wall-clock time `now`. A telegram for an unknown region is ignored
    /// (`None`); otherwise the region's own result is returned.
    pub fn ingest_at(&mut self, telegram: &Telegram, now: i64) -> (r: Option<Result<Tram, UpdateError>>)
        requires
            old(self).wf(),
        ensures
            final(self).wf(),
            final(self).paths() == old(self).paths(),
            match r {
                None => !old(self)@.contains_key(telegram.region) && final(self)@ == old(self)@,
                Some(res) => old(self)@.contains_key(telegram.region) && res == decode_spec(
                    *telegram,
                    now,
                ) && final(self)@ == old(self)@.insert(
                    telegram.region,
                    step(old(self)@[telegram.region], old(self).paths()[telegram.region], *telegram, now),
                ),
            },
    {
        let id = telegram.region;
        match self.regions.remove(&id) {
            Some(mut network) => {
                assert(network.wf());
                let res = network.update_at(telegram, now);
                self.regions.insert(id, network);
                proof {
                    let v = step(old(self)@[id], old(self).paths()[id], *telegram, now);
                    assert(self@ =~= old(self)@.insert(id, v));
                    assert(self.paths() =~= old(self).paths());
                }
                Some(res)
            },
            None => None,
        }
    }
}

} // verus!
