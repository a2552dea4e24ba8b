use ssfseq::emit::{bpm_leaf_value, emit_records, skid_bias};
use ssfseq::parse::parse_chart;

fn records(text: &[u8]) -> Vec<ssfseq::emit::StepRecord> {
    let c = parse_chart(text).expect("chart must load");
    emit_records(&c)
}

#[test]
fn step_record_fields() {
    let rs = records(b"#BPM01: 120\n0\n0:0AB\nEND\n");
    assert_eq!(rs.len(), 1);
    let r = &rs[0];
    assert_eq!(r.stime_ms, 0);
    assert_eq!(r.etime_ms, 0);
    assert_eq!(r.stime_dt, 0);
    assert_eq!(r.etime_dt, 0);
    assert_eq!(r.category, 0);
    assert_eq!(r.pos_left, 10 * 4096);
    assert_eq!(r.pos_right, 22 * 4096);
    assert_eq!(r.kind, 1);
    assert_eq!(r.var, 0);
    assert_eq!(r.player_id, 0);
    assert!(r.points.is_empty());
}

#[test]
fn jump_and_down_records() {
    let rs = records(b"#BPM01: 120\n0\n0:2,3\nEND\n");
    assert_eq!(rs.len(), 2);
    assert_eq!(rs[0].kind, 4);
    assert_eq!(rs[1].kind, 3);
    for r in &rs {
        assert_eq!(r.category, 0);
        assert_eq!(r.pos_left, 0);
        assert_eq!(r.pos_right, 65536);
        assert_eq!(r.player_id, 4);
    }
}

#[test]
fn right_step_has_kind_two() {
    let rs = records(b"#BPM01: 120\n0\n96:137\nEND\n");
    assert_eq!(rs.len(), 1);
    assert_eq!(rs[0].kind, 2);
    assert_eq!(rs[0].stime_ms, 1000);
    assert_eq!(rs[0].stime_dt, 960);
}

#[test]
fn hold_record_resolves_end_time() {
    // start at (0, 10), slide end at (0, 50): 520 ms at bpm 120
    let rs = records(b"#BPM01: 120\n0\n10:4000\n50:7006\nEND\n");
    assert_eq!(rs.len(), 1);
    let r = &rs[0];
    assert_eq!(r.category, 1);
    assert_eq!(r.kind, 1);
    assert_eq!(r.stime_ms, 104);
    assert_eq!(r.etime_ms, 520);
    assert_eq!(r.etime_ms, ssfseq::timing::measure_tick_to_ms(0, 50, 120));
    assert_eq!(r.etime_dt, 499);
    assert_eq!(r.points.len(), 1);
    assert_eq!(r.points[0].point_time, 520);
    assert_eq!(r.points[0].pos_left, 0);
    assert_eq!(r.points[0].pos_right, 7 * 4096);
    assert_eq!(r.points[0].end_edge, None);
}

#[test]
fn right_hold_has_kind_two() {
    let rs = records(b"#BPM01: 120\n0\n10:5000\n50:7006\nEND\n");
    assert_eq!(rs[0].kind, 2);
}

#[test]
fn cross_measure_hold_times() {
    let rs = records(b"#BPM01: 120\n2\n190:4000\n3\n5:7000\nEND\n");
    assert_eq!(rs.len(), 1);
    assert_eq!(rs[0].stime_ms, 5979);
    assert_eq!(rs[0].etime_ms, 6052);
}

#[test]
fn unterminated_hold_has_zero_duration() {
    let rs = records(b"#BPM01: 120\n0\n10:4000\nEND\n");
    assert_eq!(rs.len(), 1);
    assert_eq!(rs[0].stime_ms, rs[0].etime_ms);
    assert!(rs[0].points.is_empty());
}

#[test]
fn skid_bias_extending_right_uses_midpoint_and_new_right() {
    assert_eq!(skid_bias(8192, 12288, 4096), (10240, 12288));
}

#[test]
fn skid_bias_not_extending_right_uses_new_left_and_midpoint() {
    assert_eq!(skid_bias(0, 4096, 4096), (0, 2048));
}

#[test]
fn simple_skid_point_reuses_previous_edges_and_biases_end() {
    // hold start at lane 0 width 1: edges (0, 4096); the skid end is at
    // lane 2 width 1: edges (8192, 12288), so its end edge is biased
    // toward the right
    let rs = records(b"#BPM01: 120\n0\n0:4000\n10:A020\nEND\n");
    assert_eq!(rs.len(), 1);
    let p = &rs[0].points[0];
    assert_eq!(p.pos_left, 0);
    assert_eq!(p.pos_right, 4096);
    assert_eq!(p.end_edge, Some((10240, 12288)));
}

#[test]
fn complex_skid_point_carries_both_edges() {
    // complex-skid end with start edge lane 1 width 1 and end edge lane 3
    // width 1
    let rs = records(b"#BPM01: 120\n0\n0:4000\n10:B01030\nEND\n");
    assert_eq!(rs.len(), 1);
    let p = &rs[0].points[0];
    assert_eq!(p.pos_left, 4096);
    assert_eq!(p.pos_right, 8192);
    assert_eq!(p.end_edge, Some((12288, 16384)));
}

#[test]
fn waypoints_emit_no_standalone_records() {
    let rs = records(b"#BPM01: 120\n0\n10:4000\n20:6012\n50:7006\nEND\n");
    assert_eq!(rs.len(), 1);
    assert_eq!(rs[0].points.len(), 2);
}

#[test]
fn records_come_in_grid_order() {
    let rs = records(b"#BPM01: 120\n0\n50:2\n10:3\n1\n0:000\nEND\n");
    assert_eq!(rs.len(), 3);
    assert_eq!(rs[0].kind, 3);
    assert_eq!(rs[1].kind, 4);
    assert_eq!(rs[2].kind, 1);
}

#[test]
fn bpm_leaf_is_hundred_times_tempo() {
    assert_eq!(bpm_leaf_value(120), 12000);
    assert_eq!(bpm_leaf_value(0), 0);
    assert_eq!(bpm_leaf_value(u32::MAX), u32::MAX);
}

#[test]
fn document_carries_scaled_bpm_leaf() {
    let root = ssfseq::xml::convert(b"#BPM01: 120\n0\n10:4000\n50:7006\nEND\n").expect("convert");
    let mut xml = xml_builder::XMLBuilder::new()
        .version(xml_builder::XMLVersion::XML1_0)
        .encoding("UTF-8".to_string())
        .build();
    xml.set_root_element(root);
    let mut out: Vec<u8> = Vec::new();
    xml.generate(&mut out).expect("generate");
    let text = String::from_utf8(out).expect("utf8");
    assert!(text.contains("<bpm __type=\"s32\">12000</bpm>"));
    assert!(text.contains("<seq_version __type=\"s32\">8</seq_version>"));
    assert!(text.contains("<tick __type=\"s32\">480</tick>"));
    assert!(text.contains("<stime_ms __type=\"s64\">104</stime_ms>"));
    assert!(text.contains("<etime_ms __type=\"s64\">520</etime_ms>"));
    assert!(text.contains("<point_time __type=\"s64\">520</point_time>"));
}

#[test]
fn convert_fails_exactly_when_loading_fails() {
    assert!(ssfseq::xml::convert(b"#BPM01: 120\nEND\n").is_ok());
    let r = ssfseq::xml::convert(b"#BPM01: 120\n0\n0:XY\nEND\n");
    assert!(matches!(r, Err(ssfseq::parse::ChartError::Decode)));
}

#[test]
fn document_carries_skid_end_edge_leaves() {
    let root = ssfseq::xml::convert(b"#BPM01: 120\n0\n0:4000\n10:A020\nEND\n").expect("convert");
    let mut xml = xml_builder::XMLBuilder::new()
        .version(xml_builder::XMLVersion::XML1_0)
        .encoding("UTF-8".to_string())
        .build();
    xml.set_root_element(root);
    let mut out: Vec<u8> = Vec::new();
    xml.generate(&mut out).expect("generate");
    let text = String::from_utf8(out).expect("utf8");
    assert!(text.contains("<category __type=\"s32\">1</category>"));
    assert!(text.contains("<long_point>"));
    assert!(text.contains("<point>"));
    assert!(text.contains("<pos_lend __type=\"s32\">10240</pos_lend>"));
    assert!(text.contains("<pos_rend __type=\"s32\">12288</pos_rend>"));
}
