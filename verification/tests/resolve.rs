use ssfseq::grid::{Chart, Measure};
use ssfseq::note::NoteEvent;
use ssfseq::parse::{parse_chart, ChartError};
use ssfseq::resolver::{ChainFamily, ChainPoint, PointShape};

fn chart(text: &[u8]) -> Chart {
    parse_chart(text).expect("chart must load")
}

#[test]
fn measure_has_192_empty_slots() {
    let m = Measure::new();
    assert_eq!(m.ticks.len(), 192);
    assert!(m.ticks.iter().all(|slot| slot.is_empty()));
}

#[test]
fn loader_builds_grid_and_reads_bpm() {
    let c = chart(b"#TITLE Example\n#BPM01: 120\n0\n10:4000\n50:7006\nEND\n");
    assert_eq!(c.bpm, 120);
    assert_eq!(c.measures.len(), 1);
    assert_eq!(c.measures[0].ticks[10].len(), 1);
    assert_eq!(c.measures[0].ticks[50].len(), 1);
}

#[test]
fn loader_gap_fills_skipped_measures() {
    let c = chart(b"#BPM01: 120\n2\n0:2\nEND\n");
    assert_eq!(c.measures.len(), 3);
    assert!(c.measures[0].ticks.iter().all(|s| s.is_empty()));
    assert!(c.measures[1].ticks.iter().all(|s| s.is_empty()));
    assert_eq!(c.measures[2].ticks[0].len(), 1);
}

#[test]
fn loader_rejects_bad_token() {
    assert_eq!(
        parse_chart(b"#BPM01: 120\n0\n0:XY\nEND\n"),
        Err(ChartError::Decode)
    );
}

#[test]
fn loader_rejects_bad_difficulty() {
    assert_eq!(
        parse_chart(b"#DIFFICULTY 5\n#BPM01: 120\nEND\n"),
        Err(ChartError::Decode)
    );
    assert!(parse_chart(b"#DIFFICULTY 2\n#BPM01: 120\nEND\n").is_ok());
}

#[test]
fn loader_rejects_bad_bpm_argument() {
    assert_eq!(parse_chart(b"#BPM01: abc\nEND\n"), Err(ChartError::Structure));
}

#[test]
fn loader_rejects_missing_bpm() {
    assert_eq!(parse_chart(b""), Err(ChartError::Structure));
    assert_eq!(parse_chart(b"#TITLE x\nEND\n"), Err(ChartError::Structure));
}

#[test]
fn loader_rejects_bad_measure_line() {
    assert_eq!(
        parse_chart(b"#BPM01: 120\nfoo\nEND\n"),
        Err(ChartError::Structure)
    );
}

#[test]
fn loader_rejects_tick_out_of_range() {
    assert_eq!(
        parse_chart(b"#BPM01: 120\n0\n192:2\nEND\n"),
        Err(ChartError::Structure)
    );
}

#[test]
fn loader_rejects_tick_line_before_measure_line() {
    assert_eq!(
        parse_chart(b"#BPM01: 120\n5:2\nEND\n"),
        Err(ChartError::Structure)
    );
}

#[test]
fn resolver_finds_terminator_in_same_measure() {
    // start at (0, 10); the only terminator is a slide end with the same
    // id at (0, 50)
    let c = chart(b"#BPM01: 120\n0\n10:4000\n50:7006\nEND\n");
    let r = c.resolve_chain(0, 10, 0, ChainFamily::Slide);
    assert_eq!(r.end_pos, Some((0, 50)));
    assert_eq!(
        r.points,
        vec![ChainPoint { measure: 0, tick: 50, shape: PointShape::Single { lane: 0, width: 7 } }]
    );
}

#[test]
fn resolver_collects_waypoints_until_first_end() {
    let c = chart(b"#BPM01: 120\n0\n10:4000\n20:6012\n50:7006\n60:7011\nEND\n");
    let r = c.resolve_chain(0, 10, 0, ChainFamily::Slide);
    // the waypoint and the first end, nothing past it
    assert_eq!(r.points.len(), 2);
    assert_eq!(r.points[0].tick, 20);
    assert_eq!(r.points[1].tick, 50);
    assert_eq!(r.end_pos, Some((0, 50)));
}

#[test]
fn resolver_crosses_measure_boundary() {
    // start at (2, 190) with no terminator until (3, 5)
    let c = chart(b"#BPM01: 120\n2\n190:4000\n3\n5:7000\nEND\n");
    let r = c.resolve_chain(2, 190, 0, ChainFamily::Slide);
    assert_eq!(r.end_pos, Some((3, 5)));
    assert_eq!(r.points.len(), 1);
    assert_eq!(r.points[0].measure, 3);
    assert_eq!(r.points[0].tick, 5);
}

#[test]
fn resolver_leaves_unterminated_chain_open() {
    let c = chart(b"#BPM01: 120\n0\n10:4000\nEND\n");
    let r = c.resolve_chain(0, 10, 0, ChainFamily::Slide);
    assert_eq!(r.end_pos, None);
    assert!(r.points.is_empty());
}

#[test]
fn families_with_shared_id_do_not_cross_resolve() {
    // a slide waypoint and a simple-skid waypoint both carry id 5
    let c = chart(b"#BPM01: 120\n0\n0:4500\n20:6500,8501\nEND\n");
    let slide = c.resolve_chain(0, 0, 5, ChainFamily::Slide);
    assert_eq!(
        slide.points,
        vec![ChainPoint { measure: 0, tick: 20, shape: PointShape::Single { lane: 0, width: 1 } }]
    );
    let skid = c.resolve_chain(0, 0, 5, ChainFamily::SimpleSkid);
    assert_eq!(
        skid.points,
        vec![ChainPoint {
            measure: 0,
            tick: 20,
            shape: PointShape::SimpleSkid { lane: 0, width: 2 }
        }]
    );
}

#[test]
fn resolver_ignores_other_ids() {
    let c = chart(b"#BPM01: 120\n0\n10:4000\n50:7106\nEND\n");
    // the end marker carries id 1, the chain id 0
    let r = c.resolve_chain(0, 10, 0, ChainFamily::Slide);
    assert_eq!(r.end_pos, None);
    assert!(r.points.is_empty());
}

#[test]
fn resolver_scan_starts_at_start_tick_inclusive() {
    // an end marker before the start tick is not considered
    let c = chart(b"#BPM01: 120\n0\n5:7006\n10:4000\n50:7006\nEND\n");
    let r = c.resolve_chain(0, 10, 0, ChainFamily::Slide);
    assert_eq!(r.end_pos, Some((0, 50)));
}

#[test]
fn chain_family_is_first_matching_event() {
    let c = chart(b"#BPM01: 120\n0\n0:4500\n20:8501\n30:6500\nEND\n");
    assert_eq!(c.chain_family(0, 0, 5), Some(ChainFamily::SimpleSkid));
    assert_eq!(c.chain_family(0, 25, 5), Some(ChainFamily::Slide));
    assert_eq!(c.chain_family(0, 0, 9), None);
}

#[test]
fn chain_family_sees_end_markers_too() {
    let c = chart(b"#BPM01: 120\n0\n0:4300\n40:B30000\nEND\n");
    assert_eq!(c.chain_family(0, 0, 3), Some(ChainFamily::ComplexSkid));
}

#[test]
fn loader_skips_empty_token_segments() {
    let c = chart(b"#BPM01: 120\n0\n0:2,,3,\nEND\n");
    assert_eq!(c.measures[0].ticks[0].len(), 2);
}

#[test]
fn loader_accepts_empty_notes_list() {
    let c = chart(b"#BPM01: 120\n0\n0:\nEND\n");
    assert!(c.measures[0].ticks[0].is_empty());
}

#[test]
fn loader_handles_carriage_returns() {
    let c = chart(b"#BPM01: 120\r\n0\r\n0:2\r\nEND\r\n");
    assert_eq!(c.bpm, 120);
    assert_eq!(c.measures[0].ticks[0].len(), 1);
}

#[test]
fn loader_lets_a_measure_be_revisited() {
    let c = chart(b"#BPM01: 120\n0\n0:2\n1\n0:3\n0\n5:2\nEND\n");
    assert_eq!(c.measures.len(), 2);
    assert_eq!(c.measures[0].ticks[0].len(), 1);
    assert_eq!(c.measures[0].ticks[5].len(), 1);
    assert_eq!(c.measures[1].ticks[0].len(), 1);
}

#[test]
fn loader_ignores_unknown_header_commands() {
    let c = chart(b"#SOMEKEY some value\n#BPM01: 120\nEND\n");
    assert_eq!(c.bpm, 120);
}

#[test]
fn loader_keeps_slot_insertion_order() {
    let c = chart(b"#BPM01: 120\n0\n0:2,3\nEND\n");
    assert_eq!(c.measures[0].ticks[0], vec![NoteEvent::Jump, NoteEvent::Down]);
}

#[test]
fn loader_ends_body_at_end_marker() {
    let c = chart(b"#BPM01: 120\n0\n0:2\nEND\n0:3\n");
    assert_eq!(c.measures[0].ticks[0].len(), 1);
}
