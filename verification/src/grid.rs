//! The chart grid: an ordered sequence of measures, each holding exactly
//! 192 tick slots, each slot an ordered sequence of decoded note events in
//! notation order. Built once by the loader and read-only afterwards.

use vstd::prelude::*;
use crate::note::NoteEvent;

verus! {

/// The spec-level shape of the whole grid: measures, then tick slots, then
/// the events of one slot in notation order.
pub type GridView = Seq<Seq<Seq<NoteEvent>>>;

/// One measure: exactly 192 tick slots.
#[derive(Debug, PartialEq, Eq)]
pub struct Measure {
    pub ticks: Vec<Vec<NoteEvent>>,
}

impl View for Measure {
    type V = Seq<Seq<NoteEvent>>;

    open spec fn view(&self) -> Seq<Seq<NoteEvent>> {
        self.ticks@.map(|i: int, v: Vec<NoteEvent>| v@)
    }
}

/// An empty measure's slots: 192 empty tick slots.
pub open spec fn empty_measure_view() -> Seq<Seq<NoteEvent>> {
    Seq::new(192, |i: int| Seq::empty())
}

impl Measure {
    /// A measure is well formed when it has exactly 192 tick slots.
    pub open spec fn wf(&self) -> bool {
        self@.len() == 192
    }

    /// An empty measure: 192 slots, each without events.
    pub fn new() -> (m: Measure)
        ensures
            m.wf(),
            m@ == empty_measure_view(),
    {
        let mut ticks: Vec<Vec<NoteEvent>> = Vec::new();
        let mut i: usize = 0;
        while i < 192
            invariant
                i <= 192,
                ticks@.len() == i,
                forall|t: int| 0 <= t < i ==> ticks@[t]@ == Seq::<NoteEvent>::empty(),
            decreases 192 - i,
        {
            ticks.push(Vec::new());
            i = i + 1;
        }
        let m = Measure { ticks };
        proof {
            assert(m@ =~= empty_measure_view());
        }
        m
    }
}

/// The whole chart: the grid of measures and the tempo taken from the
/// header, in beats per minute.
#[derive(Debug, PartialEq, Eq)]
pub struct Chart {
    pub measures: Vec<Measure>,
    pub bpm: u32,
}

/// The grid a sequence of measures stands for.
pub open spec fn grid_of(measures: Seq<Measure>) -> GridView {
    measures.map(|i: int, m: Measure| m@)
}

impl Chart {
    /// The grid as a three-level sequence.
    pub open spec fn grid(&self) -> GridView {
        grid_of(self.measures@)
    }

    /// A grid is well formed when every measure has exactly 192 tick slots.
    pub open spec fn grid_wf(g: GridView) -> bool {
        forall|m: int| 0 <= m < g.len() ==> (#[trigger] g[m]).len() == 192
    }

    /// A chart is well formed when its grid is and its tempo is nonzero.
    pub open spec fn wf(&self) -> bool {
        Self::grid_wf(self.grid()) && self.bpm >= 1
    }
}

} // verus!
