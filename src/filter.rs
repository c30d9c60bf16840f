use vstd::prelude::*;

use crate::report::Tram;

verus! {

/// The allow-lists of a filter; an empty list admits every value.
pub struct FilterView {
    pub regions: Seq<i64>,
    pub junctions: Seq<i64>,
    pub lines: Seq<u32>,
}

/// Whether a filter with allow-lists `f` admits the record `t`.
pub open spec fn fits_spec(f: FilterView, t: Tram) -> bool {
    &&& (f.regions.len() == 0 || f.regions.contains(t.region))
    &&& (f.junctions.len() == 0 || f.junctions.contains(t.reporting_point as i64))
    &&& (f.lines.len() == 0 || f.lines.contains(t.line))
}

/// A subscriber's choice of the reports it wants, by region, reporting point
/// and line.
#[derive(Debug, Clone)]
pub struct Filter {
    pub regions: Vec<i64>,
    pub junctions: Vec<i64>,
    pub lines: Vec<u32>,
}

impl View for Filter {
    type V = FilterView;

    open spec fn view(&self) -> FilterView {
        FilterView { regions: self.regions@, junctions: self.junctions@, lines: self.lines@ }
    }
}

impl Filter {
    /// A filter that admits every report.
    pub fn new() -> (f: Filter)
        ensures
            f@.regions.len() == 0,
            f@.junctions.len() == 0,
            f@.lines.len() == 0,
    {
        Filter { regions: Vec::new(), junctions: Vec::new(), lines: Vec::new() }
    }

    /// Whether this filter admits `telegram`: each non-empty allow-list holds
    /// the record's corresponding field.
    pub fn fits(&self, telegram: &Tram) -> (r: bool)
        ensures
            r == fits_spec(self@, *telegram),
    {
        (self.regions.len() == 0 || contains_i64(&self.regions, telegram.region)) && (
        self.junctions.len() == 0 || contains_i64(&self.junctions, telegram.reporting_point as i64))
            && (self.lines.len() == 0 || contains_u32(&self.lines, telegram.line))
    }
}

fn contains_i64(v: &Vec<i64>, x: i64) -> (r: bool)
    ensures
        r == v@.contains(x),
{
    let mut i: usize = 0;
    while i < v.len()
        invariant
            i <= v@.len(),
            forall|j: int| 0 <= j < i ==> v@[j] != x,
        decreases v@.len() - i,
    {
        if v[i] == x {
            assert(v@[i as int] == x);
            return true;
        }
        i = i + 1;
    }
    false
}

fn contains_u32(v: &Vec<u32>, x: u32) -> (r: bool)
    ensures
        r == v@.contains(x),
{
    let mut i: usize = 0;
    while i < v.len()
        invariant
            i <= v@.len(),
            forall|j: int| 0 <= j < i ==> v@[j] != x,
        decreases v@.len() - i,
    {
        if v[i] == x {
            assert(v@[i as int] == x);
            return true;
        }
        i = i + 1;
    }
    false
}

} // verus!
