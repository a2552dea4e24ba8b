//! The waypoint resolver: given a chain start's grid position, identifier
//! and family, it scans forward through the grid — the current measure from
//! the start tick inclusive, then every later measure from tick 0 — and
//! collects the chain's waypoints, stopping at the first matching end
//! marker.
//!
//! Family matching is strict: a slide identifier only matches slide
//! waypoints and ends, a simple-skid identifier only simple-skid points,
//! a complex-skid identifier only complex-skid points. An identifier may be
//! reused by another family without ambiguity. A chain with no matching end
//! marker anywhere forward in the chart is left open: its resolved end
//! position is `None`, which callers turn into a zero-duration chain.

use vstd::prelude::*;
use crate::note::NoteEvent;
use crate::grid::{Chart, GridView, Measure};

verus! {

/// The three chain families a start event can open.
#[derive(Clone, Copy, PartialEq, Eq, Structural, Debug)]
pub enum ChainFamily {
    Slide,
    SimpleSkid,
    ComplexSkid,
}

/// Positional payload of one resolved time-point, still in lane/width
/// units: a single edge for slide points, a single declared edge for
/// simple-skid points (their opposite edge is inferred later), or two
/// independent edges for complex-skid points.
#[derive(Clone, Copy, PartialEq, Eq, Structural, Debug)]
pub enum PointShape {
    Single { lane: u8, width: u8 },
    SimpleSkid { lane: u8, width: u8 },
    Complex { lane_start: u8, width_start: u8, lane_end: u8, width_end: u8 },
}

/// One resolved time-point: the grid position it was found at, and its
/// positional payload.
#[derive(Clone, Copy, PartialEq, Eq, Structural, Debug)]
pub struct ChainPoint {
    pub measure: usize,
    pub tick: usize,
    pub shape: PointShape,
}

/// The payload an event contributes when it is a waypoint of the given
/// family with the given identifier, and `None` otherwise.
pub open spec fn waypoint_shape(fam: ChainFamily, id: u8, e: NoteEvent) -> Option<PointShape> {
    match (fam, e) {
        (ChainFamily::Slide, NoteEvent::SlideWaypoint { id: i, lane, width }) => {
            if i == id {
                Some(PointShape::Single { lane, width })
            } else {
                None
            }
        },
        (ChainFamily::SimpleSkid, NoteEvent::SimpleSkidWaypoint { id: i, lane, width }) => {
            if i == id {
                Some(PointShape::SimpleSkid { lane, width })
            } else {
                None
            }
        },
        (ChainFamily::ComplexSkid, NoteEvent::ComplexSkidWaypoint {
            id: i,
            lane_start,
            width_start,
            lane_end,
            width_end,
        }) => {
            if i == id {
                Some(PointShape::Complex { lane_start, width_start, lane_end, width_end })
            } else {
                None
            }
        },
        _ => None,
    }
}

/// The payload an event contributes when it is the end marker of the given
/// family with the given identifier, and `None` otherwise.
pub open spec fn end_shape(fam: ChainFamily, id: u8, e: NoteEvent) -> Option<PointShape> {
    match (fam, e) {
        (ChainFamily::Slide, NoteEvent::SlideEnd { id: i, lane, width }) => {
            if i == id {
                Some(PointShape::Single { lane, width })
            } else {
                None
            }
        },
        (ChainFamily::SimpleSkid, NoteEvent::SimpleSkidEnd { id: i, lane, width }) => {
            if i == id {
                Some(PointShape::SimpleSkid { lane, width })
            } else {
                None
            }
        },
        (ChainFamily::ComplexSkid, NoteEvent::ComplexSkidEnd {
            id: i,
            lane_start,
            width_start,
            lane_end,
            width_end,
        }) => {
            if i == id {
                Some(PointShape::Complex { lane_start, width_start, lane_end, width_end })
            } else {
                None
            }
        },
        _ => None,
    }
}

/// The family of a chain event (waypoint or end marker of any family) whose
/// identifier matches, and `None` for every other event.
pub open spec fn event_family(id: u8, e: NoteEvent) -> Option<ChainFamily> {
    match e {
        NoteEvent::SlideWaypoint { id: i, .. } => {
            if i == id {
                Some(ChainFamily::Slide)
            } else {
                None
            }
        },
        NoteEvent::SlideEnd { id: i, .. } => {
            if i == id {
                Some(ChainFamily::Slide)
            } else {
                None
            }
        },
        NoteEvent::SimpleSkidWaypoint { id: i, .. } => {
            if i == id {
                Some(ChainFamily::SimpleSkid)
            } else {
                None
            }
        },
        NoteEvent::SimpleSkidEnd { id: i, .. } => {
            if i == id {
                Some(ChainFamily::SimpleSkid)
            } else {
                None
            }
        },
        NoteEvent::ComplexSkidWaypoint { id: i, .. } => {
            if i == id {
                Some(ChainFamily::ComplexSkid)
            } else {
                None
            }
        },
        NoteEvent::ComplexSkidEnd { id: i, .. } => {
            if i == id {
                Some(ChainFamily::ComplexSkid)
            } else {
                None
            }
        },
        _ => None,
    }
}

/// The events of one tick slot, each tagged with its grid position.
pub open spec fn located(evs: Seq<NoteEvent>, m: int, t: int) -> Seq<(int, int, NoteEvent)> {
    evs.map(|i: int, e: NoteEvent| (m, t, e))
}

/// The located events of measure `m` (whose slots are `mv`) from tick `t`
/// onward, slot by slot in increasing tick order.
pub open spec fn measure_events(mv: Seq<Seq<NoteEvent>>, m: int, t: int) -> Seq<(int, int, NoteEvent)>
    decreases mv.len() - t,
{
    if t >= mv.len() {
        Seq::empty()
    } else {
        located(mv[t], m, t) + measure_events(mv, m, t + 1)
    }
}

/// The located events of every measure from `m` onward, each from tick 0.
pub open spec fn measures_events(g: GridView, m: int) -> Seq<(int, int, NoteEvent)>
    decreases g.len() - m,
{
    if m >= g.len() {
        Seq::empty()
    } else {
        measure_events(g[m], m, 0) + measures_events(g, m + 1)
    }
}

/// Every located event a chain starting at `(m, t)` scans, in scan order:
/// the current measure from the start tick inclusive, then all later
/// measures from tick 0.
pub open spec fn scan_events(g: GridView, m: int, t: int) -> Seq<(int, int, NoteEvent)> {
    measure_events(g[m], m, t) + measures_events(g, m + 1)
}

/// The state of a chain scan: the resolved points so far, and the position
/// of the end marker once one has been found.
#[verifier::ext_equal]
pub ghost struct ScanState {
    pub points: Seq<(int, int, PointShape)>,
    pub end_pos: Option<(int, int)>,
}

/// The scan state before any event has been seen.
pub open spec fn scan_init() -> ScanState {
    ScanState { points: Seq::empty(), end_pos: None }
}

/// How one located event advances the scan: after the end marker nothing
/// changes; a matching end marker contributes its point and closes the
/// scan; a matching waypoint contributes its point; every other event is
/// ignored.
pub open spec fn scan_step(fam: ChainFamily, id: u8, st: ScanState, ev: (int, int, NoteEvent)) -> ScanState {
    if st.end_pos is Some {
        st
    } else {
        match end_shape(fam, id, ev.2) {
            Some(sh) => ScanState {
                points: st.points.push((ev.0, ev.1, sh)),
                end_pos: Some((ev.0, ev.1)),
            },
            None => match waypoint_shape(fam, id, ev.2) {
                Some(sh) => ScanState { points: st.points.push((ev.0, ev.1, sh)), end_pos: st.end_pos },
                None => st,
            },
        }
    }
}

/// The scan state after a whole sequence of located events.
pub open spec fn scan_run(fam: ChainFamily, id: u8, st: ScanState, evs: Seq<(int, int, NoteEvent)>) -> ScanState
    decreases evs.len(),
{
    if evs.len() == 0 {
        st
    } else {
        scan_run(fam, id, scan_step(fam, id, st, evs[0]), evs.drop_first())
    }
}

/// The complete resolution of the chain of `(fam, id)` starting at
/// `(m, t)`: its ordered resolved points, and its end position if an end
/// marker was found.
pub open spec fn resolve_spec(g: GridView, m: int, t: int, id: u8, fam: ChainFamily) -> ScanState {
    scan_run(fam, id, scan_init(), scan_events(g, m, t))
}

/// The family of the first chain event matching `id` in a sequence of
/// located events, and `None` when there is none.
pub open spec fn first_family(id: u8, evs: Seq<(int, int, NoteEvent)>) -> Option<ChainFamily>
    decreases evs.len(),
{
    if evs.len() == 0 {
        None
    } else {
        match event_family(id, evs[0].2) {
            Some(f) => Some(f),
            None => first_family(id, evs.drop_first()),
        }
    }
}

/// Running a scan over a concatenation runs it over the two halves in turn.
pub proof fn lemma_scan_run_concat(fam: ChainFamily, id: u8, st: ScanState, a: Seq<(int, int, NoteEvent)>, b: Seq<(int, int, NoteEvent)>)
    ensures
        scan_run(fam, id, st, a + b) == scan_run(fam, id, scan_run(fam, id, st, a), b),
    decreases a.len(),
{
    if a.len() == 0 {
        assert(a + b =~= b);
    } else {
        assert((a + b)[0] == a[0]);
        assert((a + b).drop_first() =~= a.drop_first() + b);
        lemma_scan_run_concat(fam, id, scan_step(fam, id, st, a[0]), a.drop_first(), b);
    }
}

/// The first matching family over a concatenation is the first of the left
/// half, or else the first of the right half.
pub proof fn lemma_first_family_concat(id: u8, a: Seq<(int, int, NoteEvent)>, b: Seq<(int, int, NoteEvent)>)
    ensures
        first_family(id, a + b) == if first_family(id, a) is Some {
            first_family(id, a)
        } else {
            first_family(id, b)
        },
    decreases a.len(),
{
    if a.len() == 0 {
        assert(a + b =~= b);
    } else {
        assert((a + b)[0] == a[0]);
        assert((a + b).drop_first() =~= a.drop_first() + b);
        lemma_first_family_concat(id, a.drop_first(), b);
    }
}

/// Family isolation: an event that is not a chain event of exactly the
/// scanned family and identifier leaves the scan state unchanged. In
/// particular a slide waypoint and a simple-skid waypoint sharing the same
/// numeric identifier never cross-resolve.
pub proof fn lemma_family_isolation(fam: ChainFamily, id: u8, st: ScanState, ev: (int, int, NoteEvent))
    requires
        event_family(id, ev.2) != Some(fam),
    ensures
        scan_step(fam, id, st, ev) == st,
{
}

/// Unterminated-chain degeneracy: when no event of the scanned sequence is
/// a matching end marker, the scan never records an end position, so the
/// chain resolves with `end_pos` `None` and the caller's end time defaults
/// to the start time.
pub proof fn lemma_unterminated(fam: ChainFamily, id: u8, st: ScanState, evs: Seq<(int, int, NoteEvent)>)
    requires
        st.end_pos is None,
        forall|i: int| 0 <= i < evs.len() ==> end_shape(fam, id, (#[trigger] evs[i]).2) is None,
    ensures
        scan_run(fam, id, st, evs).end_pos is None,
    decreases evs.len(),
{
    if evs.len() > 0 {
        assert(end_shape(fam, id, evs[0].2) is None);
        assert(forall|i: int| 0 <= i < evs.drop_first().len() ==> #[trigger] evs.drop_first()[i] == evs[i + 1]);
        lemma_unterminated(fam, id, scan_step(fam, id, st, evs[0]), evs.drop_first());
    }
}

/// Exec mirror of `event_family`.
fn event_family_of(id: u8, e: &NoteEvent) -> (r: Option<ChainFamily>)
    ensures
        r == event_family(id, *e),
{
    match *e {
        NoteEvent::SlideWaypoint { id: i, .. } => {
            if i == id {
                Some(ChainFamily::Slide)
            } else {
                None
            }
        },
        NoteEvent::SlideEnd { id: i, .. } => {
            if i == id {
                Some(ChainFamily::Slide)
            } else {
                None
            }
        },
        NoteEvent::SimpleSkidWaypoint { id: i, .. } => {
            if i == id {
                Some(ChainFamily::SimpleSkid)
            } else {
                None
            }
        },
        NoteEvent::SimpleSkidEnd { id: i, .. } => {
            if i == id {
                Some(ChainFamily::SimpleSkid)
            } else {
                None
            }
        },
        NoteEvent::ComplexSkidWaypoint { id: i, .. } => {
            if i == id {
                Some(ChainFamily::ComplexSkid)
            } else {
                None
            }
        },
        NoteEvent::ComplexSkidEnd { id: i, .. } => {
            if i == id {
                Some(ChainFamily::ComplexSkid)
            } else {
                None
            }
        },
        _ => None,
    }
}

/// First matching family among the events of one tick slot.
fn family_in_slot(events: &Vec<NoteEvent>, m: usize, t: usize, id: u8) -> (r: Option<ChainFamily>)
    ensures
        r == first_family(id, located(events@, m as int, t as int)),
{
    let ghost all = located(events@, m as int, t as int);
    proof {
        assert(all.skip(0) =~= all);
    }
    let mut j: usize = 0;
    while j < events.len()
        invariant
            j <= events.len(),
            all == located(events@, m as int, t as int),
            first_family(id, all) == first_family(id, all.skip(j as int)),
        decreases events.len() - j,
    {
        proof {
            assert(all.skip(j as int)[0] == (m as int, t as int, events@[j as int]));
            assert(all.skip(j as int).drop_first() =~= all.skip(j as int + 1));
        }
        let r = event_family_of(id, &events[j]);
        if r.is_some() {
            return r;
        }
        j = j + 1;
    }
    proof {
        assert(all.skip(events@.len() as int) =~= Seq::<(int, int, NoteEvent)>::empty());
    }
    None
}

/// First matching family in one measure from tick `t0` onward.
fn family_in_measure(measure: &Measure, m: usize, t0: usize, id: u8) -> (r: Option<ChainFamily>)
    ensures
        r == first_family(id, measure_events(measure@, m as int, t0 as int)),
{
    let mut t: usize = t0;
    while t < measure.ticks.len()
        invariant
            first_family(id, measure_events(measure@, m as int, t0 as int)) == first_family(id, measure_events(measure@, m as int, t as int)),
        decreases measure.ticks.len() - t,
    {
        proof {
            assert(measure@[t as int] == measure.ticks@[t as int]@);
            lemma_first_family_concat(id, located(measure@[t as int], m as int, t as int),
                measure_events(measure@, m as int, t as int + 1));
        }
        let r = family_in_slot(&measure.ticks[t], m, t, id);
        if r.is_some() {
            return r;
        }
        t = t + 1;
    }
    None
}

impl Chart {
    /// The family of the chain opened at `(m0, t0)` with identifier `id`:
    /// the family of the first chain event matching `id` in scan order, or
    /// `None` when no chain event matches anywhere forward, in which case
    /// the chain is empty and degenerate.
    pub fn chain_family(&self, m0: usize, t0: usize, id: u8) -> (r: Option<ChainFamily>)
        requires
            m0 < self.grid().len(),
        ensures
            r == first_family(id, scan_events(self.grid(), m0 as int, t0 as int)),
    {
        let ghost g = self.grid();
        proof {
            assert(g.len() == self.measures@.len());
            assert(g[m0 as int] == self.measures@[m0 as int]@);
            lemma_first_family_concat(id, measure_events(g[m0 as int], m0 as int, t0 as int),
                measures_events(g, m0 as int + 1));
        }
        let r = family_in_measure(&self.measures[m0], m0, t0, id);
        if r.is_some() {
            return r;
        }
        let n = self.measures.len();
        assert(m0 < n);
        let mut m: usize = m0 + 1;
        while m < n
            invariant
                m0 < m,
                n == self.measures.len(),
                g == self.grid(),
                first_family(id, scan_events(g, m0 as int, t0 as int)) == first_family(id, measures_events(g, m as int)),
            decreases n - m,
        {
            proof {
                assert(g[m as int] == self.measures@[m as int]@);
                lemma_first_family_concat(id, measure_events(g[m as int], m as int, 0),
                    measures_events(g, m as int + 1));
            }
            let r2 = family_in_measure(&self.measures[m], m, 0, id);
            if r2.is_some() {
                return r2;
            }
            m = m + 1;
        }
        None
    }
}

/// Unterminated-chain degeneracy at the chart level: when no event in the
/// whole scan region is a matching end marker, resolution leaves the chain
/// open, and the emitter's end time then defaults to the start time.
pub proof fn lemma_unterminated_chain(g: GridView, m: int, t: int, id: u8, fam: ChainFamily)
    requires
        forall|i: int| 0 <= i < scan_events(g, m, t).len() ==> end_shape(fam, id, (#[trigger] scan_events(g, m, t)[i]).2) is None,
    ensures
        resolve_spec(g, m, t, id, fam).end_pos is None,
{
    lemma_unterminated(fam, id, scan_init(), scan_events(g, m, t));
}

/// The outcome of resolving one chain: the ordered path points and, when a
/// matching end marker exists, its grid position.
pub struct ResolvedChain {
    pub points: Vec<ChainPoint>,
    pub end_pos: Option<(usize, usize)>,
}

/// The located payloads a vector of resolved points stands for.
pub open spec fn points_view(points: Seq<ChainPoint>) -> Seq<(int, int, PointShape)> {
    points.map(|i: int, p: ChainPoint| (p.measure as int, p.tick as int, p.shape))
}

/// The scan state that a vector of resolved points and an end position
/// stand for.
pub open spec fn state_of(points: Seq<ChainPoint>, end_pos: Option<(usize, usize)>) -> ScanState {
    ScanState {
        points: points_view(points),
        end_pos: match end_pos {
            Some(p) => Some((p.0 as int, p.1 as int)),
            None => None,
        },
    }
}

/// Exec mirror of `end_shape`.
fn end_shape_of(fam: ChainFamily, id: u8, e: &NoteEvent) -> (r: Option<PointShape>)
    ensures
        r == end_shape(fam, id, *e),
{
    match (fam, *e) {
        (ChainFamily::Slide, NoteEvent::SlideEnd { id: i, lane, width }) => {
            if i == id {
                Some(PointShape::Single { lane, width })
            } else {
                None
            }
        },
        (ChainFamily::SimpleSkid, NoteEvent::SimpleSkidEnd { id: i, lane, width }) => {
            if i == id {
                Some(PointShape::SimpleSkid { lane, width })
            } else {
                None
            }
        },
        (ChainFamily::ComplexSkid, NoteEvent::ComplexSkidEnd {
            id: i,
            lane_start,
            width_start,
            lane_end,
            width_end,
        }) => {
            if i == id {
                Some(PointShape::Complex { lane_start, width_start, lane_end, width_end })
            } else {
                None
            }
        },
        _ => None,
    }
}

/// Exec mirror of `waypoint_shape`.
fn waypoint_shape_of(fam: ChainFamily, id: u8, e: &NoteEvent) -> (r: Option<PointShape>)
    ensures
        r == waypoint_shape(fam, id, *e),
{
    match (fam, *e) {
        (ChainFamily::Slide, NoteEvent::SlideWaypoint { id: i, lane, width }) => {
            if i == id {
                Some(PointShape::Single { lane, width })
            } else {
                None
            }
        },
        (ChainFamily::SimpleSkid, NoteEvent::SimpleSkidWaypoint { id: i, lane, width }) => {
            if i == id {
                Some(PointShape::SimpleSkid { lane, width })
            } else {
                None
            }
        },
        (ChainFamily::ComplexSkid, NoteEvent::ComplexSkidWaypoint {
            id: i,
            lane_start,
            width_start,
            lane_end,
            width_end,
        }) => {
            if i == id {
                Some(PointShape::Complex { lane_start, width_start, lane_end, width_end })
            } else {
                None
            }
        },
        _ => None,
    }
}

/// Runs the scan over the events of one tick slot, in stored order.
fn scan_slot(events: &Vec<NoteEvent>, m: usize, t: usize, id: u8, fam: ChainFamily,
    points: &mut Vec<ChainPoint>, end_pos: &mut Option<(usize, usize)>)
    ensures
        state_of(final(points)@, *final(end_pos)) == scan_run(fam, id, state_of(old(points)@, *old(end_pos)), located(events@, m as int, t as int)),
{
    let ghost st0 = state_of(points@, *end_pos);
    let ghost all = located(events@, m as int, t as int);
    proof {
        assert(all.skip(0) =~= all);
    }
    let mut j: usize = 0;
    while j < events.len()
        invariant
            j <= events.len(),
            all == located(events@, m as int, t as int),
            st0 == state_of(old(points)@, *old(end_pos)),
            scan_run(fam, id, st0, all) == scan_run(fam, id, state_of(points@, *end_pos), all.skip(j as int)),
        decreases events.len() - j,
    {
        let ghost pre = state_of(points@, *end_pos);
        let ghost suffix = all.skip(j as int);
        proof {
            assert(suffix.len() > 0);
            assert(suffix[0] == (m as int, t as int, events@[j as int]));
            assert(suffix.drop_first() =~= all.skip(j as int + 1));
            assert(scan_run(fam, id, pre, suffix) == scan_run(fam, id, scan_step(fam, id, pre, suffix[0]), all.skip(j as int + 1)));
        }
        if end_pos.is_none() {
            let e = events[j];
            match end_shape_of(fam, id, &e) {
                Some(sh) => {
                    points.push(ChainPoint { measure: m, tick: t, shape: sh });
                    *end_pos = Some((m, t));
                    proof {
                        assert(points@.map(|i: int, p: ChainPoint| (p.measure as int, p.tick as int, p.shape))
                            =~= pre.points.push((m as int, t as int, sh)));
                    }
                },
                None => {
                    match waypoint_shape_of(fam, id, &e) {
                        Some(sh) => {
                            points.push(ChainPoint { measure: m, tick: t, shape: sh });
                            proof {
                                assert(points@.map(|i: int, p: ChainPoint| (p.measure as int, p.tick as int, p.shape))
                                    =~= pre.points.push((m as int, t as int, sh)));
                            }
                        },
                        None => {},
                    }
                },
            }
        }
        proof {
            assert(state_of(points@, *end_pos) == scan_step(fam, id, pre, suffix[0]));
        }
        j = j + 1;
    }
    proof {
        assert(all.skip(events@.len() as int) =~= Seq::<(int, int, NoteEvent)>::empty());
    }
}

/// Runs the scan over one measure from tick `t0` onward.
fn scan_measure(measure: &Measure, m: usize, t0: usize, id: u8, fam: ChainFamily,
    points: &mut Vec<ChainPoint>, end_pos: &mut Option<(usize, usize)>)
    ensures
        state_of(final(points)@, *final(end_pos)) == scan_run(fam, id, state_of(old(points)@, *old(end_pos)), measure_events(measure@, m as int, t0 as int)),
{
    let ghost st0 = state_of(points@, *end_pos);
    let mut t: usize = t0;
    while t < measure.ticks.len()
        invariant
            st0 == state_of(old(points)@, *old(end_pos)),
            scan_run(fam, id, st0, measure_events(measure@, m as int, t0 as int)) == scan_run(fam, id, state_of(points@, *end_pos), measure_events(measure@, m as int, t as int)),
        decreases measure.ticks.len() - t,
    {
        let ghost pre = state_of(points@, *end_pos);
        proof {
            assert(measure@[t as int] == measure.ticks@[t as int]@);
            lemma_scan_run_concat(fam, id, pre, located(measure@[t as int], m as int, t as int),
                measure_events(measure@, m as int, t as int + 1));
        }
        scan_slot(&measure.ticks[t], m, t, id, fam, points, end_pos);
        t = t + 1;
    }
}

impl Chart {
    /// Resolves the chain of family `fam` and identifier `id` whose start
    /// event lies at `(m0, t0)`: scans the rest of the start's measure from
    /// the start tick inclusive, then all later measures from tick 0,
    /// collecting matching waypoints until the first matching end marker.
    pub fn resolve_chain(&self, m0: usize, t0: usize, id: u8, fam: ChainFamily) -> (r: ResolvedChain)
        requires
            m0 < self.grid().len(),
        ensures
            state_of(r.points@, r.end_pos) == resolve_spec(self.grid(), m0 as int, t0 as int, id, fam),
    {
        let ghost g = self.grid();
        let mut points: Vec<ChainPoint> = Vec::new();
        let mut end_pos: Option<(usize, usize)> = None;
        proof {
            assert(state_of(points@, end_pos) =~= scan_init());
            assert(g.len() == self.measures@.len());
            assert(g[m0 as int] == self.measures@[m0 as int]@);
            lemma_scan_run_concat(fam, id, scan_init(), measure_events(g[m0 as int], m0 as int, t0 as int),
                measures_events(g, m0 as int + 1));
        }
        scan_measure(&self.measures[m0], m0, t0, id, fam, &mut points, &mut end_pos);
        let n = self.measures.len();
        assert(m0 < n);
        let mut m: usize = m0 + 1;
        while m < self.measures.len()
            invariant
                m0 < m,
                g == self.grid(),
                resolve_spec(g, m0 as int, t0 as int, id, fam) == scan_run(fam, id, state_of(points@, end_pos), measures_events(g, m as int)),
            decreases self.measures.len() - m,
        {
            let ghost pre = state_of(points@, end_pos);
            proof {
                assert(g[m as int] == self.measures@[m as int]@);
                lemma_scan_run_concat(fam, id, pre, measure_events(g[m as int], m as int, 0),
                    measures_events(g, m as int + 1));
            }
            scan_measure(&self.measures[m], m, 0, id, fam, &mut points, &mut end_pos);
            m = m + 1;
        }
        ResolvedChain { points, end_pos }
    }
}

} // verus!
