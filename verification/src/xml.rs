//! Assembly of the output document: the fixed header leaves and one
//! `step` element per emitted record, each numeric leaf tagged with its
//! integer width. Tree construction is delegated to the `xml_builder`
//! crate through a small set of trusted wrappers.
//!
//! The contracts model an element's content fully: its name, its
//! attribute rows, the integer its text renders, and its descendants as a
//! flattened preorder row list (`XmlRow`), each row carrying its nesting
//! depth. The document built for a chart is pinned down to every leaf by
//! `document_rows`.

use vstd::prelude::*;
use crate::emit::{PathPoint, StepRecord, StepRecordView, records_view, emit_records, emit_spec, bpm_leaf_value};
use crate::grid::{Chart, GridView};
use crate::parse::{ChartError, parse_chart, parse_result};
use crate::timing::sat32;

verus! {

#[verifier::external_type_specification]
#[verifier::external_body]
pub struct ExXMLElement(xml_builder::XMLElement);

/// One row of an element's flattened content: the nesting depth below the
/// element (0 for a direct child), the row element's name, its attributes
/// in order, and the integer its text renders when it has text.
#[verifier::ext_equal]
pub ghost struct XmlRow {
    pub depth: int,
    pub label: Seq<char>,
    pub attrs: Seq<(Seq<char>, Seq<char>)>,
    pub value: Option<u64>,
}

/// Whether an element still has no content at all — neither text nor
/// child elements. Names the content state of `xml_builder::XMLElement`,
/// which its `add_text` and `add_child` test.
pub uninterp spec fn xml_is_empty(e: xml_builder::XMLElement) -> bool;

/// Whether an element holds text content, which makes `add_child` fail on
/// it.
pub uninterp spec fn xml_has_text(e: xml_builder::XMLElement) -> bool;

/// The element's own name, as it will be rendered in its tag.
pub uninterp spec fn xml_label(e: xml_builder::XMLElement) -> Seq<char>;

/// The element's attribute list, in insertion order, as (name, value)
/// rows.
pub uninterp spec fn xml_attr_rows(e: xml_builder::XMLElement) -> Seq<(Seq<char>, Seq<char>)>;

/// The integer whose canonical decimal rendering is the element's text,
/// and `None` when the element holds no such text.
pub uninterp spec fn xml_text_value(e: xml_builder::XMLElement) -> Option<u64>;

/// The element's descendants, flattened in preorder: each row carries its
/// depth below the element (0 for a direct child), its name, its
/// attributes and its text value.
pub uninterp spec fn xml_descendant_rows(e: xml_builder::XMLElement) -> Seq<XmlRow>;

/// The same rows, one level deeper.
pub open spec fn shift_rows(rows: Seq<XmlRow>) -> Seq<XmlRow> {
    rows.map(|i: int, r: XmlRow| XmlRow { depth: r.depth + 1, label: r.label, attrs: r.attrs, value: r.value })
}

/// The flattened rows an element contributes when it becomes a child: its
/// own row at depth 0, then its descendants one level deeper.
pub open spec fn subtree_rows(e: xml_builder::XMLElement) -> Seq<XmlRow> {
    seq![XmlRow { depth: 0, label: xml_label(e), attrs: xml_attr_rows(e), value: xml_text_value(e) }]
        + shift_rows(xml_descendant_rows(e))
}

/// Whether a string is free of the five characters that attribute-value
/// escaping rewrites (`&`, `"`, `'`, `<`, `>`).
pub open spec fn esc_free(s: Seq<char>) -> bool {
    forall|i: int| 0 <= i < s.len() ==> (#[trigger] s[i]) != '&' && s[i] != '"' && s[i] != '\'' && s[i] != '<' && s[i] != '>'
}

/// Relies on `XMLElement::new`: a fresh element has the given name, no
/// attributes, no text and no content.
#[verifier::external_body]
fn xml_new_element(name: &str) -> (r: xml_builder::XMLElement)
    ensures
        xml_is_empty(r),
        !xml_has_text(r),
        xml_label(r) == name@,
        xml_attr_rows(r) == Seq::<(Seq<char>, Seq<char>)>::empty(),
        xml_text_value(r) is None,
        xml_descendant_rows(r) == Seq::<XmlRow>::empty(),
{
    xml_builder::XMLElement::new(name)
}

/// Relies on `XMLElement::add_attribute`: it appends the (name, value)
/// pair to the attribute list — the value passed through unchanged when it
/// holds none of the characters escaping rewrites — and leaves the
/// content untouched.
#[verifier::external_body]
fn xml_add_attribute(e: &mut xml_builder::XMLElement, name: &str, value: &str)
    requires
        esc_free(value@),
    ensures
        xml_is_empty(*final(e)) == xml_is_empty(*old(e)),
        xml_has_text(*final(e)) == xml_has_text(*old(e)),
        xml_label(*final(e)) == xml_label(*old(e)),
        xml_text_value(*final(e)) == xml_text_value(*old(e)),
        xml_descendant_rows(*final(e)) == xml_descendant_rows(*old(e)),
        xml_attr_rows(*final(e)) == xml_attr_rows(*old(e)).push((name@, value@)),
{
    e.add_attribute(name, value);
}

/// Relies on `XMLElement::add_text`: it succeeds exactly on an element
/// with no content yet, which afterwards holds the decimal rendering of
/// the value as its text.
#[verifier::external_body]
fn xml_set_text(e: &mut xml_builder::XMLElement, value: u64)
    requires
        xml_is_empty(*old(e)),
    ensures
        !xml_is_empty(*final(e)),
        xml_has_text(*final(e)),
        xml_label(*final(e)) == xml_label(*old(e)),
        xml_attr_rows(*final(e)) == xml_attr_rows(*old(e)),
        xml_descendant_rows(*final(e)) == xml_descendant_rows(*old(e)),
        xml_text_value(*final(e)) == Some(value),
{
    e.add_text(value.to_string()).unwrap();
}

/// Relies on `XMLElement::add_child`: it succeeds exactly on an element
/// that holds no text, and appends the child, whose flattened rows come
/// last in the parent's preorder content.
#[verifier::external_body]
fn xml_add_child(e: &mut xml_builder::XMLElement, child: xml_builder::XMLElement)
    requires
        !xml_has_text(*old(e)),
    ensures
        !xml_has_text(*final(e)),
        !xml_is_empty(*final(e)),
        xml_label(*final(e)) == xml_label(*old(e)),
        xml_attr_rows(*final(e)) == xml_attr_rows(*old(e)),
        xml_text_value(*final(e)) == xml_text_value(*old(e)),
        xml_descendant_rows(*final(e)) == xml_descendant_rows(*old(e)) + subtree_rows(child),
{
    e.add_child(child).unwrap();
}

/// The row of a childless leaf holding a `__type`-tagged integer.
pub open spec fn tagged_row(label: Seq<char>, tag: Seq<char>, value: u64) -> XmlRow {
    XmlRow { depth: 0, label, attrs: seq![("__type"@, tag)], value: Some(value) }
}

/// The row of an `s32`-tagged leaf.
pub open spec fn s32_row(label: Seq<char>, value: u32) -> XmlRow {
    tagged_row(label, "s32"@, value as u64)
}

/// The row of an `s64`-tagged leaf.
pub open spec fn s64_row(label: Seq<char>, value: u64) -> XmlRow {
    tagged_row(label, "s64"@, value)
}

/// The row of an interior element: no attributes, no text.
pub open spec fn plain_row(label: Seq<char>) -> XmlRow {
    XmlRow { depth: 0, label, attrs: Seq::empty(), value: None }
}

/// The same row, `d` levels deeper.
pub open spec fn deeper(r: XmlRow, d: int) -> XmlRow {
    XmlRow { depth: r.depth + d, label: r.label, attrs: r.attrs, value: r.value }
}

/// Appends a leaf element named `name`, carrying the attribute
/// `__type="s32"` and the value's decimal text, leaving everything else
/// about the target unchanged.
pub fn add_s32_element(xml: &mut xml_builder::XMLElement, name: &str, value: u32)
    requires
        !xml_has_text(*old(xml)),
    ensures
        !xml_has_text(*final(xml)),
        !xml_is_empty(*final(xml)),
        xml_label(*final(xml)) == xml_label(*old(xml)),
        xml_attr_rows(*final(xml)) == xml_attr_rows(*old(xml)),
        xml_text_value(*final(xml)) == xml_text_value(*old(xml)),
        xml_descendant_rows(*final(xml)) == xml_descendant_rows(*old(xml)).push(s32_row(name@, value)),
{
    let mut element = xml_new_element(name);
    proof {
        reveal_strlit("s32");
        assert(esc_free("s32"@));
    }
    xml_add_attribute(&mut element, "__type", "s32");
    xml_set_text(&mut element, value as u64);
    xml_add_child(xml, element);
    proof {
        assert(shift_rows(xml_descendant_rows(element)) =~= Seq::<XmlRow>::empty());
        assert(subtree_rows(element) =~~= seq![s32_row(name@, value)]);
        assert(xml_descendant_rows(*xml) =~= xml_descendant_rows(*old(xml)).push(s32_row(name@, value)));
    }
}

/// Appends a leaf element named `name`, carrying the attribute
/// `__type="s64"` and the value's decimal text, leaving everything else
/// about the target unchanged.
pub fn add_s64_element(xml: &mut xml_builder::XMLElement, name: &str, value: u64)
    requires
        !xml_has_text(*old(xml)),
    ensures
        !xml_has_text(*final(xml)),
        !xml_is_empty(*final(xml)),
        xml_label(*final(xml)) == xml_label(*old(xml)),
        xml_attr_rows(*final(xml)) == xml_attr_rows(*old(xml)),
        xml_text_value(*final(xml)) == xml_text_value(*old(xml)),
        xml_descendant_rows(*final(xml)) == xml_descendant_rows(*old(xml)).push(s64_row(name@, value)),
{
    let mut element = xml_new_element(name);
    proof {
        reveal_strlit("s64");
        assert(esc_free("s64"@));
    }
    xml_add_attribute(&mut element, "__type", "s64");
    xml_set_text(&mut element, value);
    xml_add_child(xml, element);
    proof {
        assert(shift_rows(xml_descendant_rows(element)) =~= Seq::<XmlRow>::empty());
        assert(subtree_rows(element) =~~= seq![s64_row(name@, value)]);
        assert(xml_descendant_rows(*xml) =~= xml_descendant_rows(*old(xml)).push(s64_row(name@, value)));
    }
}

/// The flattened content of the fixed document frame: `seq_version` 8 and
/// the `info` block — the engine tick constant 480, one bpm entry at time
/// zero carrying the given leaf value, and one 4/4 measure entry at time
/// zero.
pub open spec fn frame_rows(bpm: u32) -> Seq<XmlRow> {
    seq![
        s32_row("seq_version"@, 8),
        plain_row("info"@),
        deeper(s32_row("tick"@, 480), 1),
        deeper(plain_row("bpm_info"@), 1),
        deeper(plain_row("bpm"@), 2),
        deeper(s32_row("time"@, 0), 3),
        deeper(s32_row("delta_time"@, 0), 3),
        deeper(s32_row("bpm"@, bpm), 3),
        deeper(plain_row("measure_info"@), 1),
        deeper(plain_row("measure"@), 2),
        deeper(s32_row("time"@, 0), 3),
        deeper(s32_row("delta_time"@, 0), 3),
        deeper(s32_row("num"@, 4), 3),
        deeper(s32_row("denomi"@, 4), 3),
    ]
}

/// The fixed document frame: a `data` element whose content is exactly
/// `frame_rows(bpm)`.
pub fn xml_boilerplate(bpm: u32) -> (r: xml_builder::XMLElement)
    ensures
        !xml_has_text(r),
        !xml_is_empty(r),
        xml_label(r) == "data"@,
        xml_attr_rows(r) == Seq::<(Seq<char>, Seq<char>)>::empty(),
        xml_text_value(r) is None,
        xml_descendant_rows(r) == frame_rows(bpm),
{
    let mut xml = xml_new_element("data");

    add_s32_element(&mut xml, "seq_version", 8);

    let mut info = xml_new_element("info");

    add_s32_element(&mut info, "tick", 480);

    let mut bpm_info = xml_new_element("bpm_info");
    let mut bpm_entry = xml_new_element("bpm");
    add_s32_element(&mut bpm_entry, "time", 0);
    add_s32_element(&mut bpm_entry, "delta_time", 0);
    add_s32_element(&mut bpm_entry, "bpm", bpm);
    xml_add_child(&mut bpm_info, bpm_entry);
    xml_add_child(&mut info, bpm_info);

    let mut measure_info = xml_new_element("measure_info");

    let mut measure = xml_new_element("measure");
    add_s32_element(&mut measure, "time", 0);
    add_s32_element(&mut measure, "delta_time", 0);
    add_s32_element(&mut measure, "num", 4);
    add_s32_element(&mut measure, "denomi", 4);
    xml_add_child(&mut measure_info, measure);

    xml_add_child(&mut info, measure_info);

    xml_add_child(&mut xml, info);

    proof {
        assert(xml_descendant_rows(xml) =~~= frame_rows(bpm));
    }
    xml
}

/// The leaf rows of one path point: its time, its edge pair and — for
/// skid-shaped points — its end-edge pair.
pub open spec fn point_rows(p: PathPoint) -> Seq<XmlRow> {
    let base = seq![
        s64_row("point_time"@, p.point_time as u64),
        s32_row("pos_left"@, p.pos_left),
        s32_row("pos_right"@, p.pos_right),
    ];
    match p.end_edge {
        Some(edge) => base + seq![s32_row("pos_lend"@, edge.0), s32_row("pos_rend"@, edge.1)],
        None => base,
    }
}

/// The flattened rows one path point contributes to its `long_point`: a
/// `point` element holding the point's leaves.
pub open spec fn point_subtree(p: PathPoint) -> Seq<XmlRow> {
    seq![plain_row("point"@)] + shift_rows(point_rows(p))
}

/// The flattened content of a `long_point`: one `point` subtree per path
/// point, in order.
pub open spec fn path_rows(pts: Seq<PathPoint>) -> Seq<XmlRow>
    decreases pts.len(),
{
    if pts.len() == 0 {
        Seq::empty()
    } else {
        path_rows(pts.drop_last()) + point_subtree(pts.last())
    }
}

/// The flattened content of one record's `step` element: its ten numeric
/// leaves and, for a held chain (category 1), the nested `long_point`
/// holding the ordered path.
pub open spec fn step_rows(rec: StepRecordView) -> Seq<XmlRow> {
    let leaves = seq![
        s64_row("stime_ms"@, rec.stime_ms as u64),
        s64_row("etime_ms"@, rec.etime_ms as u64),
        s32_row("stime_dt"@, rec.stime_dt),
        s32_row("etime_dt"@, rec.etime_dt),
        s32_row("category"@, rec.category),
        s32_row("pos_left"@, rec.pos_left),
        s32_row("pos_right"@, rec.pos_right),
        s32_row("kind"@, rec.kind),
        s32_row("var"@, rec.var),
        s32_row("player_id"@, rec.player_id),
    ];
    if rec.category == 1 {
        leaves + (seq![plain_row("long_point"@)] + shift_rows(path_rows(rec.points)))
    } else {
        leaves
    }
}

/// The `step` element of one emitted record, with exactly the record's
/// leaves and path as its content.
fn step_element(rec: &StepRecord) -> (r: xml_builder::XMLElement)
    ensures
        !xml_has_text(r),
        xml_label(r) == "step"@,
        xml_attr_rows(r) == Seq::<(Seq<char>, Seq<char>)>::empty(),
        xml_text_value(r) is None,
        xml_descendant_rows(r) == step_rows(rec@),
{
    let mut step = xml_new_element("step");

    add_s64_element(&mut step, "stime_ms", rec.stime_ms as u64);
    add_s64_element(&mut step, "etime_ms", rec.etime_ms as u64);
    add_s32_element(&mut step, "stime_dt", rec.stime_dt);
    add_s32_element(&mut step, "etime_dt", rec.etime_dt);
    add_s32_element(&mut step, "category", rec.category);
    add_s32_element(&mut step, "pos_left", rec.pos_left);
    add_s32_element(&mut step, "pos_right", rec.pos_right);
    add_s32_element(&mut step, "kind", rec.kind);
    add_s32_element(&mut step, "var", rec.var);
    add_s32_element(&mut step, "player_id", rec.player_id);

    if rec.category == 1 {
        let mut long_point = xml_new_element("long_point");
        proof {
            assert(xml_descendant_rows(long_point) =~= path_rows(rec.points@.take(0)));
        }
        let mut i: usize = 0;
        while i < rec.points.len()
            invariant
                i <= rec.points@.len(),
                !xml_has_text(long_point),
                xml_label(long_point) == "long_point"@,
                xml_attr_rows(long_point) == Seq::<(Seq<char>, Seq<char>)>::empty(),
                xml_text_value(long_point) is None,
                xml_descendant_rows(long_point) == path_rows(rec.points@.take(i as int)),
            decreases rec.points@.len() - i,
        {
            let p = rec.points[i];
            let mut point = xml_new_element("point");
            add_s64_element(&mut point, "point_time", p.point_time as u64);
            add_s32_element(&mut point, "pos_left", p.pos_left);
            add_s32_element(&mut point, "pos_right", p.pos_right);
            match p.end_edge {
                Some(edge) => {
                    add_s32_element(&mut point, "pos_lend", edge.0);
                    add_s32_element(&mut point, "pos_rend", edge.1);
                    proof {
                        assert(xml_descendant_rows(point) =~~= point_rows(p));
                    }
                },
                None => {
                    proof {
                        assert(xml_descendant_rows(point) =~~= point_rows(p));
                    }
                },
            }
            let ghost before = xml_descendant_rows(long_point);
            xml_add_child(&mut long_point, point);
            proof {
                assert(subtree_rows(point) =~~= point_subtree(p));
                assert(rec.points@.take(i as int + 1).drop_last() =~= rec.points@.take(i as int));
                assert(rec.points@.take(i as int + 1).last() == p);
                assert(xml_descendant_rows(long_point) =~~= path_rows(rec.points@.take(i as int + 1)));
            }
            i = i + 1;
        }
        proof {
            assert(rec.points@.take(rec.points@.len() as int) =~= rec.points@);
        }
        xml_add_child(&mut step, long_point);
        proof {
            assert(subtree_rows(long_point) =~~= seq![plain_row("long_point"@)] + shift_rows(path_rows(rec.points@)));
            assert(xml_descendant_rows(step) =~~= step_rows(rec@));
        }
    } else {
        proof {
            assert(xml_descendant_rows(step) =~~= step_rows(rec@));
        }
    }

    step
}

/// The flattened rows one record contributes to `sequence_data`: a `step`
/// element holding the record's content.
pub open spec fn step_subtree(rec: StepRecordView) -> Seq<XmlRow> {
    seq![plain_row("step"@)] + shift_rows(step_rows(rec))
}

/// The flattened content of `sequence_data`: one `step` subtree per
/// emitted record, in order.
pub open spec fn records_rows(recs: Seq<StepRecordView>) -> Seq<XmlRow>
    decreases recs.len(),
{
    if recs.len() == 0 {
        Seq::empty()
    } else {
        records_rows(recs.drop_last()) + step_subtree(recs.last())
    }
}

/// The full flattened content of the output document for a chart: the
/// frame with the bpm leaf at one hundred times the chart tempo, then
/// `sequence_data` holding every emitted record's step subtree in grid
/// order.
pub open spec fn document_rows(g: GridView, bpm: u32) -> Seq<XmlRow> {
    frame_rows(sat32(100 * bpm) as u32)
        + (seq![plain_row("sequence_data"@)] + shift_rows(records_rows(emit_spec(g, bpm))))
}

/// The complete document tree of a loaded chart: a `data` element whose
/// content is exactly `document_rows` of the chart's grid and tempo.
pub fn build_document(chart: &Chart) -> (r: xml_builder::XMLElement)
    requires
        chart.wf(),
    ensures
        !xml_has_text(r),
        !xml_is_empty(r),
        xml_label(r) == "data"@,
        xml_attr_rows(r) == Seq::<(Seq<char>, Seq<char>)>::empty(),
        xml_text_value(r) is None,
        xml_descendant_rows(r) == document_rows(chart.grid(), chart.bpm),
{
    let ghost g = chart.grid();
    let mut data = xml_boilerplate(bpm_leaf_value(chart.bpm));

    let records = emit_records(chart);
    let ghost rv = records_view(records@);
    proof {
        assert(rv == emit_spec(g, chart.bpm));
    }

    let mut sequence_data = xml_new_element("sequence_data");
    proof {
        assert(xml_descendant_rows(sequence_data) =~= records_rows(rv.take(0)));
    }
    let mut i: usize = 0;
    while i < records.len()
        invariant
            i <= records@.len(),
            rv == records_view(records@),
            !xml_has_text(sequence_data),
            xml_label(sequence_data) == "sequence_data"@,
            xml_attr_rows(sequence_data) == Seq::<(Seq<char>, Seq<char>)>::empty(),
            xml_text_value(sequence_data) is None,
            xml_descendant_rows(sequence_data) == records_rows(rv.take(i as int)),
        decreases records@.len() - i,
    {
        let el = step_element(&records[i]);
        proof {
            assert(rv[i as int] == records@[i as int]@);
            assert(subtree_rows(el) =~~= step_subtree(rv[i as int]));
            assert(rv.take(i as int + 1).drop_last() =~= rv.take(i as int));
            assert(rv.take(i as int + 1).last() == rv[i as int]);
        }
        xml_add_child(&mut sequence_data, el);
        proof {
            assert(xml_descendant_rows(sequence_data) =~~= records_rows(rv.take(i as int + 1)));
        }
        i = i + 1;
    }
    proof {
        assert(rv.take(rv.len() as int) =~= rv);
    }

    xml_add_child(&mut data, sequence_data);
    proof {
        assert(subtree_rows(sequence_data) =~~= seq![plain_row("sequence_data"@)] + shift_rows(records_rows(emit_spec(g, chart.bpm))));
        assert(xml_descendant_rows(data) =~~= document_rows(g, chart.bpm));
    }

    data
}

/// Converts a whole chart text into the output document tree: loads the
/// chart and builds the document for it. Fails with exactly the error
/// that loading raises; on success the returned `data` element's content
/// is exactly `document_rows` of the loaded grid and tempo.
pub fn convert(input: &[u8]) -> (r: Result<xml_builder::XMLElement, ChartError>)
    ensures
        r is Ok <==> parse_result(input@) is Ok,
        r matches Err(e) ==> parse_result(input@) == Err::<(GridView, u32), ChartError>(e),
        r matches Ok(doc) ==> parse_result(input@) matches Ok(p)
            && xml_label(doc) == "data"@
            && xml_attr_rows(doc) == Seq::<(Seq<char>, Seq<char>)>::empty()
            && xml_text_value(doc) is None
            && !xml_has_text(doc)
            && xml_descendant_rows(doc) == document_rows(p.0, p.1),
{
    match parse_chart(input) {
        Err(e) => Err(e),
        Ok(chart) => Ok(build_document(&chart)),
    }
}

} // verus!
