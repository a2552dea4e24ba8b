//! The sequence emitter: walks the resolved grid once and produces one
//! step record per instantaneous event and per hold/slide/skid start.
//! Waypoint and end events never produce standalone records — they are
//! consumed as path data for their start event.
//!
//! Positions are emitted in fixed-point units: an edge pair is
//! `(lane * 4096, (lane + width) * 4096)`. A simple-skid path point reuses
//! the previous point's edge pair as its own and infers its end edge by
//! biasing toward the side the new pair extends to.

use vstd::prelude::*;
use crate::grid::{Chart, GridView};
use crate::note::NoteEvent;
use crate::resolver::{ChainPoint, PointShape, points_view, first_family, resolve_spec, scan_events, located, measure_events, measures_events};
use crate::timing::{sat32, ms_exact, dt_exact, measure_tick_to_ms, ms_to_dt};

verus! {

/// One emitted path point of a held chain: absolute time, its edge pair,
/// and — for skid-shaped points — the end-edge pair (`pos_lend`,
/// `pos_rend`).
#[derive(Clone, Copy, PartialEq, Eq, Debug)]
pub struct PathPoint {
    pub point_time: u32,
    pub pos_left: u32,
    pub pos_right: u32,
    pub end_edge: Option<(u32, u32)>,
}

/// One emitted step record, with the field values of the output schema and
/// the resolved path of a held chain.
#[derive(PartialEq, Eq, Debug)]
pub struct StepRecord {
    pub stime_ms: u32,
    pub etime_ms: u32,
    pub stime_dt: u32,
    pub etime_dt: u32,
    pub category: u32,
    pub pos_left: u32,
    pub pos_right: u32,
    pub kind: u32,
    pub var: u32,
    pub player_id: u32,
    pub points: Vec<PathPoint>,
}

/// The spec-level value of a step record.
#[verifier::ext_equal]
pub ghost struct StepRecordView {
    pub stime_ms: u32,
    pub etime_ms: u32,
    pub stime_dt: u32,
    pub etime_dt: u32,
    pub category: u32,
    pub pos_left: u32,
    pub pos_right: u32,
    pub kind: u32,
    pub var: u32,
    pub player_id: u32,
    pub points: Seq<PathPoint>,
}

impl View for StepRecord {
    type V = StepRecordView;

    open spec fn view(&self) -> StepRecordView {
        StepRecordView {
            stime_ms: self.stime_ms,
            etime_ms: self.etime_ms,
            stime_dt: self.stime_dt,
            etime_dt: self.etime_dt,
            category: self.category,
            pos_left: self.pos_left,
            pos_right: self.pos_right,
            kind: self.kind,
            var: self.var,
            player_id: self.player_id,
            points: self.points@,
        }
    }
}

/// The records a sequence of step records stands for.
pub open spec fn records_view(s: Seq<StepRecord>) -> Seq<StepRecordView> {
    s.map(|i: int, r: StepRecord| r@)
}

/// Milliseconds of a grid position as emitted: measure and tick are taken
/// through the 32-bit cast the conversion works on, and the result is
/// clamped to the `u32` range.
pub open spec fn grid_ms(m: int, t: int, bpm: u32) -> u32 {
    sat32(ms_exact((m as u32) as int, (t as u32) as int, bpm)) as u32
}

/// Delta-time of an emitted millisecond value, clamped to the `u32` range.
pub open spec fn dt_of(ms: u32, bpm: u32) -> u32 {
    sat32(dt_exact(ms as int, bpm as int)) as u32
}

/// Left edge of a lane in fixed-point units.
pub open spec fn edge_left(lane: u8) -> u32 {
    (lane * 4096) as u32
}

/// Right edge of a lane of the given width in fixed-point units.
pub open spec fn edge_right(lane: u8, width: u8) -> u32 {
    ((lane + width) * 4096) as u32
}

/// The end-edge pair of a simple-skid point: when the new right edge
/// exceeds the previous right edge, the end edge runs from the new pair's
/// midpoint to the new right edge; otherwise it runs from the new left
/// edge to the new pair's midpoint.
pub open spec fn skid_bias_spec(pos_left: u32, pos_right: u32, last_right: u32) -> (int, int) {
    if pos_right > last_right {
        ((pos_left + pos_right) / 2, pos_right as int)
    } else {
        (pos_left as int, (pos_left + pos_right) / 2)
    }
}

/// How one resolved chain point becomes an emitted path point, given the
/// last-known edge pair: slide points carry their own pair and leave the
/// running pair alone; complex-skid points carry both their pairs and
/// update the running pair to their end edge; simple-skid points reuse the
/// running pair, infer their end edge by the bias rule, and update the
/// running pair to their own declared pair.
pub open spec fn spec_path_step(bpm: u32, last: (u32, u32), p: (int, int, PointShape)) -> (PathPoint, (u32, u32)) {
    let time = grid_ms(p.0, p.1, bpm);
    match p.2 {
        PointShape::Single { lane, width } => (
            PathPoint {
                point_time: time,
                pos_left: edge_left(lane),
                pos_right: edge_right(lane, width),
                end_edge: None,
            },
            last,
        ),
        PointShape::Complex { lane_start, width_start, lane_end, width_end } => (
            PathPoint {
                point_time: time,
                pos_left: edge_left(lane_start),
                pos_right: edge_right(lane_start, width_start),
                end_edge: Some((edge_left(lane_end), edge_right(lane_end, width_end))),
            },
            (edge_left(lane_end), edge_right(lane_end, width_end)),
        ),
        PointShape::SimpleSkid { lane, width } => {
            let nl = edge_left(lane);
            let nr = edge_right(lane, width);
            let bias = skid_bias_spec(nl, nr, last.1);
            (
                PathPoint {
                    point_time: time,
                    pos_left: last.0,
                    pos_right: last.1,
                    end_edge: Some((bias.0 as u32, bias.1 as u32)),
                },
                (nl, nr),
            )
        },
    }
}

/// The emitted path of a resolved chain, threading the last-known edge
/// pair from point to point.
pub open spec fn encode_path_spec(bpm: u32, last: (u32, u32), pts: Seq<(int, int, PointShape)>) -> Seq<PathPoint>
    decreases pts.len(),
{
    if pts.len() == 0 {
        Seq::empty()
    } else {
        let s = spec_path_step(bpm, last, pts[0]);
        seq![s.0] + encode_path_spec(bpm, s.1, pts.drop_first())
    }
}

/// The value of the emitted `bpm` leaf: the header tempo in
/// centi-beats-per-minute — one hundred times the chart tempo — clamped
/// to the `u32` range.
pub fn bpm_leaf_value(bpm: u32) -> (r: u32)
    ensures
        r == sat32(100 * bpm),
{
    let v: u64 = (bpm as u64) * 100;
    if v > 0xffff_ffff {
        u32::MAX
    } else {
        v as u32
    }
}

/// Simple-skid end-edge bias, as emitted: when the new right edge exceeds
/// the previous right edge the end edge is (midpoint, new right); otherwise
/// it is (new left, midpoint).
pub fn skid_bias(pos_left: u32, pos_right: u32, last_right: u32) -> (r: (u32, u32))
    requires
        pos_left + pos_right <= u32::MAX,
    ensures
        r.0 == skid_bias_spec(pos_left, pos_right, last_right).0,
        r.1 == skid_bias_spec(pos_left, pos_right, last_right).1,
{
    if pos_right > last_right {
        ((pos_left + pos_right) / 2, pos_right)
    } else {
        (pos_left, (pos_left + pos_right) / 2)
    }
}

/// The fixed-point edge pair of a lane and width.
fn edges_of(lane: u8, width: u8) -> (r: (u32, u32))
    ensures
        r.0 == edge_left(lane),
        r.1 == edge_right(lane, width),
{
    ((lane as u32) * 4096, (lane as u32 + width as u32) * 4096)
}

/// Encodes the resolved points of one chain into emitted path points,
/// starting from the chain start's edge pair.
pub fn encode_path(bpm: u32, start_left: u32, start_right: u32, pts: &Vec<ChainPoint>) -> (r: Vec<PathPoint>)
    requires
        bpm >= 1,
    ensures
        r@ == encode_path_spec(bpm, (start_left, start_right), points_view(pts@)),
{
    let ghost all = points_view(pts@);
    proof {
        assert(all.skip(0) =~= all);
    }
    let mut out: Vec<PathPoint> = Vec::new();
    let mut last_l = start_left;
    let mut last_r = start_right;
    let mut i: usize = 0;
    while i < pts.len()
        invariant
            i <= pts.len(),
            bpm >= 1,
            all == points_view(pts@),
            encode_path_spec(bpm, (start_left, start_right), all) == out@ + encode_path_spec(bpm, (last_l, last_r), all.skip(i as int)),
        decreases pts.len() - i,
    {
        let ghost suffix = all.skip(i as int);
        proof {
            assert(suffix[0] == (pts@[i as int].measure as int, pts@[i as int].tick as int, pts@[i as int].shape));
            assert(suffix.drop_first() =~= all.skip(i as int + 1));
        }
        let ghost stepped = spec_path_step(bpm, (last_l, last_r), suffix[0]);
        let p = pts[i];
        let time = measure_tick_to_ms(p.measure as u32, p.tick as u32, bpm);
        match p.shape {
            PointShape::Single { lane, width } => {
                let e = edges_of(lane, width);
                out.push(PathPoint { point_time: time, pos_left: e.0, pos_right: e.1, end_edge: None });
            },
            PointShape::Complex { lane_start, width_start, lane_end, width_end } => {
                let es = edges_of(lane_start, width_start);
                let ee = edges_of(lane_end, width_end);
                out.push(PathPoint { point_time: time, pos_left: es.0, pos_right: es.1, end_edge: Some(ee) });
                last_l = ee.0;
                last_r = ee.1;
            },
            PointShape::SimpleSkid { lane, width } => {
                let ne = edges_of(lane, width);
                let b = skid_bias(ne.0, ne.1, last_r);
                out.push(PathPoint { point_time: time, pos_left: last_l, pos_right: last_r, end_edge: Some(b) });
                last_l = ne.0;
                last_r = ne.1;
            },
        }
        proof {
            assert(out@ =~= out@.take(out@.len() - 1) + seq![stepped.0]);
            assert(out@.take(out@.len() - 1) + seq![stepped.0] + encode_path_spec(bpm, (last_l, last_r), all.skip(i as int + 1))
                =~= out@.take(out@.len() - 1) + (seq![stepped.0] + encode_path_spec(bpm, (last_l, last_r), all.skip(i as int + 1))));
        }
        i = i + 1;
    }
    proof {
        assert(all.skip(pts@.len() as int) =~= Seq::<(int, int, PointShape)>::empty());
        assert(out@ + Seq::<PathPoint>::empty() =~= out@);
    }
    out
}

/// The record an instantaneous event at `(m, t)` emits: start and end time
/// coincide, and the path is empty.
pub open spec fn instant_record(m: int, t: int, bpm: u32, pos_left: u32, pos_right: u32, kind: u32, player_id: u32) -> StepRecordView {
    let time = grid_ms(m, t, bpm);
    let dt = dt_of(time, bpm);
    StepRecordView {
        stime_ms: time,
        etime_ms: time,
        stime_dt: dt,
        etime_dt: dt,
        category: 0,
        pos_left,
        pos_right,
        kind,
        var: 0,
        player_id,
        points: Seq::empty(),
    }
}

/// The record a hold/slide/skid start at `(m, t)` emits. The chain's
/// family is that of the first chain event matching its identifier in scan
/// order; when no chain event matches anywhere forward the chain is left
/// open with an empty path and its end time equal to its start time.
/// Otherwise the chain is resolved strictly within that family, the end
/// time is the end marker's time — or the start time when the chain has no
/// end marker — and the path is the encoding of the resolved points seeded
/// with the start's own edge pair.
pub open spec fn hold_record(g: GridView, m: int, t: int, bpm: u32, kind: u32, id: u8, lane: u8, width: u8) -> StepRecordView {
    let time = grid_ms(m, t, bpm);
    let sl = edge_left(lane);
    let sr = edge_right(lane, width);
    match first_family(id, scan_events(g, m, t)) {
        None => StepRecordView {
            stime_ms: time,
            etime_ms: time,
            stime_dt: dt_of(time, bpm),
            etime_dt: dt_of(time, bpm),
            category: 1,
            pos_left: sl,
            pos_right: sr,
            kind,
            var: 0,
            player_id: 0,
            points: Seq::empty(),
        },
        Some(fam) => {
            let res = resolve_spec(g, m, t, id, fam);
            let end_time = match res.end_pos {
                Some(p) => grid_ms(p.0, p.1, bpm),
                None => time,
            };
            StepRecordView {
                stime_ms: time,
                etime_ms: end_time,
                stime_dt: dt_of(time, bpm),
                etime_dt: dt_of(end_time, bpm),
                category: 1,
                pos_left: sl,
                pos_right: sr,
                kind,
                var: 0,
                player_id: 0,
                points: encode_path_spec(bpm, (sl, sr), res.points),
            }
        },
    }
}

/// The record one located event emits, if any: steps, jumps, downs and
/// hold starts each emit one record; waypoints and end markers emit none.
pub open spec fn record_for(g: GridView, bpm: u32, ev: (int, int, NoteEvent)) -> Option<StepRecordView> {
    match ev.2 {
        NoteEvent::LeftStep { lane, width } => Some(
            instant_record(ev.0, ev.1, bpm, edge_left(lane), edge_right(lane, width), 1, 0),
        ),
        NoteEvent::RightStep { lane, width } => Some(
            instant_record(ev.0, ev.1, bpm, edge_left(lane), edge_right(lane, width), 2, 0),
        ),
        NoteEvent::Down => Some(instant_record(ev.0, ev.1, bpm, 0, 65536, 3, 4)),
        NoteEvent::Jump => Some(instant_record(ev.0, ev.1, bpm, 0, 65536, 4, 4)),
        NoteEvent::LeftHoldStart { id, lane, width } => Some(
            hold_record(g, ev.0, ev.1, bpm, 1, id, lane, width),
        ),
        NoteEvent::RightHoldStart { id, lane, width } => Some(
            hold_record(g, ev.0, ev.1, bpm, 2, id, lane, width),
        ),
        _ => None,
    }
}

/// The records one located event contributes: one or none.
pub open spec fn record_contrib(g: GridView, bpm: u32, ev: (int, int, NoteEvent)) -> Seq<StepRecordView> {
    match record_for(g, bpm, ev) {
        Some(r) => seq![r],
        None => Seq::empty(),
    }
}

/// The records a sequence of located events emits, in order.
pub open spec fn emit_fold(g: GridView, bpm: u32, evs: Seq<(int, int, NoteEvent)>) -> Seq<StepRecordView>
    decreases evs.len(),
{
    if evs.len() == 0 {
        Seq::empty()
    } else {
        record_contrib(g, bpm, evs[0]) + emit_fold(g, bpm, evs.drop_first())
    }
}

/// Every record of the chart, walking the whole grid in measure, tick and
/// notation order.
pub open spec fn emit_spec(g: GridView, bpm: u32) -> Seq<StepRecordView> {
    emit_fold(g, bpm, measures_events(g, 0))
}

/// Emitting a concatenation emits the two halves in turn.
pub proof fn lemma_emit_fold_concat(g: GridView, bpm: u32, a: Seq<(int, int, NoteEvent)>, b: Seq<(int, int, NoteEvent)>)
    ensures
        emit_fold(g, bpm, a + b) == emit_fold(g, bpm, a) + emit_fold(g, bpm, b),
    decreases a.len(),
{
    if a.len() == 0 {
        assert(a + b =~= b);
        assert(Seq::<StepRecordView>::empty() + emit_fold(g, bpm, b) =~= emit_fold(g, bpm, b));
    } else {
        assert((a + b)[0] == a[0]);
        assert((a + b).drop_first() =~= a.drop_first() + b);
        lemma_emit_fold_concat(g, bpm, a.drop_first(), b);
        assert(record_contrib(g, bpm, a[0]) + (emit_fold(g, bpm, a.drop_first()) + emit_fold(g, bpm, b))
            =~= (record_contrib(g, bpm, a[0]) + emit_fold(g, bpm, a.drop_first())) + emit_fold(g, bpm, b));
    }
}

/// Appends the record of one instantaneous event.
fn push_instant(out: &mut Vec<StepRecord>, m: usize, t: usize, bpm: u32, pos_left: u32, pos_right: u32, kind: u32, player_id: u32)
    requires
        bpm >= 1,
    ensures
        records_view(final(out)@) == records_view(old(out)@) + seq![instant_record(m as int, t as int, bpm, pos_left, pos_right, kind, player_id)],
{
    let time = measure_tick_to_ms(m as u32, t as u32, bpm);
    let dt = ms_to_dt(time, bpm);
    out.push(StepRecord {
        stime_ms: time,
        etime_ms: time,
        stime_dt: dt,
        etime_dt: dt,
        category: 0,
        pos_left,
        pos_right,
        kind,
        var: 0,
        player_id,
        points: Vec::new(),
    });
    proof {
        assert(records_view(out@) =~= records_view(old(out)@) + seq![instant_record(m as int, t as int, bpm, pos_left, pos_right, kind, player_id)]);
    }
}

/// Appends the record of one hold/slide/skid start, resolving its chain.
fn push_hold(chart: &Chart, m: usize, t: usize, kind: u32, id: u8, lane: u8, width: u8, out: &mut Vec<StepRecord>)
    requires
        chart.wf(),
        m < chart.grid().len(),
    ensures
        records_view(final(out)@) == records_view(old(out)@) + seq![hold_record(chart.grid(), m as int, t as int, chart.bpm, kind, id, lane, width)],
{
    let ghost g = chart.grid();
    let bpm = chart.bpm;
    let time = measure_tick_to_ms(m as u32, t as u32, bpm);
    let e = edges_of(lane, width);
    match chart.chain_family(m, t, id) {
        None => {
            let dt = ms_to_dt(time, bpm);
            out.push(StepRecord {
                stime_ms: time,
                etime_ms: time,
                stime_dt: dt,
                etime_dt: dt,
                category: 1,
                pos_left: e.0,
                pos_right: e.1,
                kind,
                var: 0,
                player_id: 0,
                points: Vec::new(),
            });
            proof {
                assert(records_view(out@) =~= records_view(old(out)@) + seq![hold_record(g, m as int, t as int, bpm, kind, id, lane, width)]);
            }
        },
        Some(fam) => {
            let resolved = chart.resolve_chain(m, t, id, fam);
            proof {
                assert(points_view(resolved.points@) == resolve_spec(g, m as int, t as int, id, fam).points);
            }
            let end_time = match resolved.end_pos {
                Some(p) => measure_tick_to_ms(p.0 as u32, p.1 as u32, bpm),
                None => time,
            };
            let path = encode_path(bpm, e.0, e.1, &resolved.points);
            let sdt = ms_to_dt(time, bpm);
            let edt = ms_to_dt(end_time, bpm);
            out.push(StepRecord {
                stime_ms: time,
                etime_ms: end_time,
                stime_dt: sdt,
                etime_dt: edt,
                category: 1,
                pos_left: e.0,
                pos_right: e.1,
                kind,
                var: 0,
                player_id: 0,
                points: path,
            });
            proof {
                assert(records_view(out@) =~= records_view(old(out)@) + seq![hold_record(g, m as int, t as int, bpm, kind, id, lane, width)]);
            }
        },
    }
}

/// Appends whatever one event at `(m, t)` emits.
fn emit_event(chart: &Chart, m: usize, t: usize, e: NoteEvent, out: &mut Vec<StepRecord>)
    requires
        chart.wf(),
        m < chart.grid().len(),
    ensures
        records_view(final(out)@) == records_view(old(out)@) + record_contrib(chart.grid(), chart.bpm, (m as int, t as int, e)),
{
    let bpm = chart.bpm;
    match e {
        NoteEvent::LeftStep { lane, width } => {
            let ed = edges_of(lane, width);
            push_instant(out, m, t, bpm, ed.0, ed.1, 1, 0);
        },
        NoteEvent::RightStep { lane, width } => {
            let ed = edges_of(lane, width);
            push_instant(out, m, t, bpm, ed.0, ed.1, 2, 0);
        },
        NoteEvent::Down => {
            push_instant(out, m, t, bpm, 0, 65536, 3, 4);
        },
        NoteEvent::Jump => {
            push_instant(out, m, t, bpm, 0, 65536, 4, 4);
        },
        NoteEvent::LeftHoldStart { id, lane, width } => {
            push_hold(chart, m, t, 1, id, lane, width, out);
        },
        NoteEvent::RightHoldStart { id, lane, width } => {
            push_hold(chart, m, t, 2, id, lane, width, out);
        },
        _ => {
            proof {
                assert(records_view(out@) =~= records_view(old(out)@) + record_contrib(chart.grid(), chart.bpm, (m as int, t as int, e)));
            }
        },
    }
}

/// Appends the records of one tick slot, in stored order.
fn emit_slot(chart: &Chart, m: usize, t: usize, out: &mut Vec<StepRecord>)
    requires
        chart.wf(),
        m < chart.grid().len(),
        t < chart.grid()[m as int].len(),
    ensures
        records_view(final(out)@) == records_view(old(out)@) + emit_fold(chart.grid(), chart.bpm, located(chart.grid()[m as int][t as int], m as int, t as int)),
{
    let ghost g = chart.grid();
    let ghost all = located(g[m as int][t as int], m as int, t as int);
    proof {
        assert(g[m as int] == chart.measures@[m as int]@);
        assert(g[m as int][t as int] == chart.measures@[m as int].ticks@[t as int]@);
        assert(all.skip(0) =~= all);
    }
    let events = &chart.measures[m].ticks[t];
    let ghost base = records_view(out@);
    let mut j: usize = 0;
    while j < events.len()
        invariant
            j <= events.len(),
            chart.wf(),
            m < chart.grid().len(),
            g == chart.grid(),
            all == located(events@, m as int, t as int),
            base == records_view(old(out)@),
            base + emit_fold(g, chart.bpm, all) == records_view(out@) + emit_fold(g, chart.bpm, all.skip(j as int)),
        decreases events.len() - j,
    {
        let ghost suffix = all.skip(j as int);
        let ghost pre = records_view(out@);
        proof {
            assert(suffix[0] == (m as int, t as int, events@[j as int]));
            assert(suffix.drop_first() =~= all.skip(j as int + 1));
        }
        let ev = events[j];
        emit_event(chart, m, t, ev, out);
        proof {
            assert((pre + record_contrib(g, chart.bpm, suffix[0])) + emit_fold(g, chart.bpm, all.skip(j as int + 1))
                =~= pre + (record_contrib(g, chart.bpm, suffix[0]) + emit_fold(g, chart.bpm, all.skip(j as int + 1))));
        }
        j = j + 1;
    }
    proof {
        assert(all.skip(events@.len() as int) =~= Seq::<(int, int, NoteEvent)>::empty());
        assert(records_view(out@) + Seq::<StepRecordView>::empty() =~= records_view(out@));
    }
}

/// Appends the records of one whole measure, tick slot by tick slot.
fn emit_measure(chart: &Chart, m: usize, out: &mut Vec<StepRecord>)
    requires
        chart.wf(),
        m < chart.grid().len(),
    ensures
        records_view(final(out)@) == records_view(old(out)@) + emit_fold(chart.grid(), chart.bpm, measure_events(chart.grid()[m as int], m as int, 0)),
{
    let ghost g = chart.grid();
    let ghost base = records_view(out@);
    let nticks = chart.measures[m].ticks.len();
    proof {
        assert(g[m as int] == chart.measures@[m as int]@);
    }
    let mut t: usize = 0;
    while t < nticks
        invariant
            chart.wf(),
            m < chart.grid().len(),
            g == chart.grid(),
            nticks == g[m as int].len(),
            base == records_view(old(out)@),
            base + emit_fold(g, chart.bpm, measure_events(g[m as int], m as int, 0)) == records_view(out@) + emit_fold(g, chart.bpm, measure_events(g[m as int], m as int, t as int)),
        decreases nticks - t,
    {
        let ghost pre = records_view(out@);
        proof {
            lemma_emit_fold_concat(g, chart.bpm, located(g[m as int][t as int], m as int, t as int),
                measure_events(g[m as int], m as int, t as int + 1));
        }
        emit_slot(chart, m, t, out);
        proof {
            assert((pre + emit_fold(g, chart.bpm, located(g[m as int][t as int], m as int, t as int)))
                + emit_fold(g, chart.bpm, measure_events(g[m as int], m as int, t as int + 1))
                =~= pre + (emit_fold(g, chart.bpm, located(g[m as int][t as int], m as int, t as int))
                    + emit_fold(g, chart.bpm, measure_events(g[m as int], m as int, t as int + 1))));
        }
        t = t + 1;
    }
}

/// Walks the fully loaded grid once and emits every step record of the
/// chart, in grid order.
pub fn emit_records(chart: &Chart) -> (r: Vec<StepRecord>)
    requires
        chart.wf(),
    ensures
        records_view(r@) == emit_spec(chart.grid(), chart.bpm),
{
    let ghost g = chart.grid();
    let mut out: Vec<StepRecord> = Vec::new();
    proof {
        assert(records_view(out@) =~= Seq::<StepRecordView>::empty());
        assert(Seq::<StepRecordView>::empty() + emit_fold(g, chart.bpm, measures_events(g, 0))
            =~= emit_fold(g, chart.bpm, measures_events(g, 0)));
    }
    let n = chart.measures.len();
    proof {
        assert(n == g.len());
    }
    let mut m: usize = 0;
    while m < n
        invariant
            m <= n,
            chart.wf(),
            n == chart.measures.len(),
            g == chart.grid(),
            emit_spec(g, chart.bpm) == records_view(out@) + emit_fold(g, chart.bpm, measures_events(g, m as int)),
        decreases n - m,
    {
        let ghost pre = records_view(out@);
        proof {
            lemma_emit_fold_concat(g, chart.bpm, measure_events(g[m as int], m as int, 0),
                measures_events(g, m as int + 1));
        }
        emit_measure(chart, m, &mut out);
        proof {
            assert((pre + emit_fold(g, chart.bpm, measure_events(g[m as int], m as int, 0)))
                + emit_fold(g, chart.bpm, measures_events(g, m as int + 1))
                =~= pre + (emit_fold(g, chart.bpm, measure_events(g[m as int], m as int, 0))
                    + emit_fold(g, chart.bpm, measures_events(g, m as int + 1))));
        }
        m = m + 1;
    }
    proof {
        assert(emit_fold(g, chart.bpm, measures_events(g, n as int)) =~= Seq::<StepRecordView>::empty());
        assert(records_view(out@) + Seq::<StepRecordView>::empty() =~= records_view(out@));
    }
    out
}

} // verus!
