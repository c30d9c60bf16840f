use vstd::prelude::*;

verus! {

/// One directed connection: a vehicle leaving `from` in `direction` next
/// reaches `to`.
#[derive(Debug, Clone, Copy, PartialEq, Eq, Structural)]
pub struct Path {
    pub from: i32,
    pub direction: u32,
    pub to: i32,
}

/// The points that feed into `b`, one entry per connection, in the order in
/// which the connections are stored.
pub open spec fn sources_into(paths: Seq<Path>, b: i32) -> Seq<i32>
    decreases paths.len(),
{
    if paths.len() == 0 {
        Seq::empty()
    } else {
        let rest = sources_into(paths.drop_last(), b);
        if paths.last().to == b {
            rest.push(paths.last().from)
        } else {
            rest
        }
    }
}

/// The points reached from `a`, one entry per connection, in stored order.
pub open spec fn targets_from(paths: Seq<Path>, a: i32) -> Seq<i32>
    decreases paths.len(),
{
    if paths.len() == 0 {
        Seq::empty()
    } else {
        let rest = targets_from(paths.drop_last(), a);
        if paths.last().from == a {
            rest.push(paths.last().to)
        } else {
            rest
        }
    }
}

/// Whether connection `p` leaves `a` in direction `d`.
pub open spec fn leaves(p: Path, a: i32, d: u32) -> bool {
    p.from == a && p.direction == d
}

/// The point reached from `a` in direction `d`, if the graph knows one.
pub open spec fn destination_of(paths: Seq<Path>, a: i32, d: u32) -> Option<i32> {
    if exists|i: int| 0 <= i < paths.len() && leaves(#[trigger] paths[i], a, d) {
        let i = choose|i: int| 0 <= i < paths.len() && leaves(#[trigger] paths[i], a, d);
        Some(paths[i].to)
    } else {
        None
    }
}

/// Whether two connections leave the same point in the same direction.
pub open spec fn same_exit(p: Path, q: Path) -> bool {
    p.from == q.from && p.direction == q.direction
}

/// No two connections of `paths` leave the same point in the same direction.
pub open spec fn unique_exits(paths: Seq<Path>) -> bool {
    forall|i: int, j: int|
        0 <= i < paths.len() && 0 <= j < paths.len() && i != j ==> !#[trigger] same_exit(
            paths[i],
            paths[j],
        )
}

/// Where connections have unique exits, the one stored at `i` gives the
/// destination of its exit.
pub proof fn lemma_destination_at(paths: Seq<Path>, i: int)
    requires
        unique_exits(paths),
        0 <= i < paths.len(),
    ensures
        destination_of(paths, paths[i].from, paths[i].direction) == Some(paths[i].to),
{
    let a = paths[i].from;
    let d = paths[i].direction;
    assert(leaves(paths[i], a, d));
    let j = choose|j: int| 0 <= j < paths.len() && leaves(#[trigger] paths[j], a, d);
    if j != i {
        assert(same_exit(paths[i], paths[j]));
    }
}

/// Static directed adjacency of the trackside points of one region: each
/// (point, direction) pair leads to at most one destination point.
#[derive(Debug, Clone)]
pub struct Graph {
    paths: Vec<Path>,
}

impl View for Graph {
    type V = Seq<Path>;

    closed spec fn view(&self) -> Seq<Path> {
        self.paths@
    }
}

impl Graph {
    /// No two connections leave the same point in the same direction.
    pub open spec fn wf(&self) -> bool {
        unique_exits(self@)
    }

    /// A graph without connections.
    pub fn new() -> (g: Graph)
        ensures
            g.wf(),
            g@ == Seq::<Path>::empty(),
    {
        Graph { paths: Vec::new() }
    }

    /// Records that leaving `from` in `direction` leads to `to`, replacing
    /// what was recorded for that pair before.
    pub fn add_path(&mut self, from: i32, direction: u32, to: i32)
        requires
            old(self).wf(),
        ensures
            final(self).wf(),
            destination_of(final(self)@, from, direction) == Some(to),
            (exists|k: int|
                0 <= k < old(self)@.len() && leaves(#[trigger] old(self)@[k], from, direction)
                    && final(self)@ == old(self)@.update(k, Path { from, direction, to }))
                || ((forall|k: int|
                0 <= k < old(self)@.len() ==> !leaves(#[trigger] old(self)@[k], from, direction))
                && final(self)@ == old(self)@.push(Path { from, direction, to })),
            forall|a: i32, d: u32|
                !(a == from && d == direction) ==> destination_of(final(self)@, a, d)
                    == destination_of(old(self)@, a, d),
    {
        let p = Path { from, direction, to };
        let ghost old_paths = self.paths@;
        let mut k: usize = 0;
        while k < self.paths.len()
            invariant
                self.paths@ == old_paths,
                old(self)@ == old_paths,
                p == (Path { from, direction, to }),
                unique_exits(old_paths),
                k <= old_paths.len(),
                forall|i: int| 0 <= i < k ==> !leaves(#[trigger] old_paths[i], from, direction),
            decreases old_paths.len() - k,
        {
            let q = self.paths[k];
            if q.from == from && q.direction == direction {
                assert(q == old_paths[k as int]);
                self.paths.set(k, p);
                proof {
                    let new_paths = self.paths@;
                    assert(new_paths == old_paths.update(k as int, p));
                    assert(same_exit(old_paths[k as int], p));
                    assert(unique_exits(new_paths)) by {
                        assert forall|i: int, j: int|
                            0 <= i < new_paths.len() && 0 <= j < new_paths.len() && i != j
                                && #[trigger] same_exit(new_paths[i], new_paths[j]) implies false by {
                            assert(same_exit(old_paths[i], old_paths[j]));
                        }
                    }
                    lemma_destination_at(new_paths, k as int);
                    assert forall|a: i32, d: u32|
                        !(a == from && d == direction) implies destination_of(new_paths, a, d)
                        == destination_of(old_paths, a, d) by {
                        if exists|i: int| 0 <= i < old_paths.len() && leaves(#[trigger] old_paths[i], a, d) {
                            let i = choose|i: int| 0 <= i < old_paths.len() && leaves(#[trigger] old_paths[i], a, d);
                            assert(i != k);
                            assert(new_paths[i] == old_paths[i]);
                            lemma_destination_at(old_paths, i);
                            lemma_destination_at(new_paths, i);
                        } else {
                            assert forall|i: int| 0 <= i < new_paths.len() implies !leaves(#[trigger] new_paths[i], a, d) by {
                                if i != k {
                                    assert(new_paths[i] == old_paths[i]);
                                    assert(!leaves(old_paths[i], a, d));
                                }
                            }
                        }
                    }
                }
                return;
            }
            k = k + 1;
        }
        self.paths.push(p);
        proof {
            let new_paths = self.paths@;
            let n = old_paths.len() as int;
            assert(new_paths == old_paths.push(p));
            assert(unique_exits(new_paths)) by {
                assert forall|i: int, j: int|
                    0 <= i < new_paths.len() && 0 <= j < new_paths.len() && i != j
                        && #[trigger] same_exit(new_paths[i], new_paths[j]) implies false by {
                    if i == n {
                        assert(!leaves(old_paths[j], from, direction));
                    } else if j == n {
                        assert(!leaves(old_paths[i], from, direction));
                    } else {
                        assert(same_exit(old_paths[i], old_paths[j]));
                    }
                }
            }
            lemma_destination_at(new_paths, n);
            assert forall|a: i32, d: u32|
                !(a == from && d == direction) implies destination_of(new_paths, a, d)
                == destination_of(old_paths, a, d) by {
                if exists|i: int| 0 <= i < old_paths.len() && leaves(#[trigger] old_paths[i], a, d) {
                    let i = choose|i: int| 0 <= i < old_paths.len() && leaves(#[trigger] old_paths[i], a, d);
                    lemma_destination_at(old_paths, i);
                    lemma_destination_at(new_paths, i);
                } else {
                    assert forall|i: int| 0 <= i < new_paths.len() implies !leaves(#[trigger] new_paths[i], a, d) by {
                        if i != n {
                            assert(!leaves(old_paths[i], a, d));
                        }
                    }
                }
            }
        }
    }

    /// The points reachable in one step from `position`.
    pub fn adjacent_paths(&self, position: i32) -> (r: Vec<i32>)
        ensures
            r@ == targets_from(self@, position),
    {
        let mut r: Vec<i32> = Vec::new();
        let mut i: usize = 0;
        while i < self.paths.len()
            invariant
                i <= self@.len(),
                r@ == targets_from(self@.take(i as int), position),
            decreases self@.len() - i,
        {
            assert(self@.take(i + 1).drop_last() =~= self@.take(i as int));
            if self.paths[i].from == position {
                r.push(self.paths[i].to);
            }
            i = i + 1;
        }
        assert(self@.take(i as int) =~= self@);
        r
    }

    /// The points from which one step leads to `position`.
    pub fn upstream(&self, position: i32) -> (r: Vec<i32>)
        ensures
            r@ == sources_into(self@, position),
    {
        let mut r: Vec<i32> = Vec::new();
        let mut i: usize = 0;
        while i < self.paths.len()
            invariant
                i <= self@.len(),
                r@ == sources_into(self@.take(i as int), position),
            decreases self@.len() - i,
        {
            assert(self@.take(i + 1).drop_last() =~= self@.take(i as int));
            if self.paths[i].to == position {
                r.push(self.paths[i].from);
            }
            i = i + 1;
        }
        assert(self@.take(i as int) =~= self@);
        r
    }

    /// The point reached from `position` in `direction`.
    pub fn destination(&self, position: i32, direction: u32) -> (r: Option<i32>)
        requires
            self.wf(),
        ensures
            r == destination_of(self@, position, direction),
    {
        let mut i: usize = 0;
        while i < self.paths.len()
            invariant
                self.wf(),
                i <= self@.len(),
                forall|j: int| 0 <= j < i ==> !leaves(#[trigger] self@[j], position, direction),
            decreases self@.len() - i,
        {
            if self.paths[i].from == position && self.paths[i].direction == direction {
                proof {
                    lemma_destination_at(self@, i as int);
                }
                return Some(self.paths[i].to);
            }
            i = i + 1;
        }
        None
    }
}

} // verus!
