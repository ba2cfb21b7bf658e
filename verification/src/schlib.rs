//! The schematic library (`.SchLib`) streams of one component: the file
//! header, the section keys, the component's record stream and the icon
//! storage, and where each goes in the compound file.
use vstd::prelude::*;
use vstd::utf8::encode_utf8;

use crate::altium::{
    block, bool_param, concat_blocks, coord_params, cstring_payload, lemma_blocks_read_back, le_i16,
    le_i32, non_zero_param, parse_blocks, pascal, section_key_from_name, spec_dxp_i16, spec_section_key, spec_unique_id,
    stable_unique_id, BinaryWriter, ParamView, Params,
};
use crate::text::{
    decimal, i64_to_string, int_decimal, is_blank, is_blank_str, push_char, push_str, u64_to_string,
};

verus! {

/// A point in raw coordinate units.
#[derive(Debug, Clone, Copy, PartialEq, Eq)]
pub struct CoordPoint {
    pub x_raw: i64,
    pub y_raw: i64,
}

#[derive(Debug)]
pub struct Pin {
    pub designator: String,
    pub name: String,
    pub location: CoordPoint,
    pub length_raw: i64,
    pub orientation: u8,
    pub show_name: bool,
    pub show_designator: bool,
    pub color_bgr: i32,
    pub owner_part_id: i32,
    pub owner_part_display_mode: i32,
}

#[derive(Debug, Clone, Copy)]
pub struct Rectangle {
    pub corner1: CoordPoint,
    pub corner2: CoordPoint,
    pub color_bgr: i32,
    pub fill_color_bgr: i32,
    pub is_filled: bool,
    pub is_transparent: bool,
    pub line_width_index: i32,
    pub owner_part_id: i32,
}

#[derive(Debug)]
pub struct Polyline {
    pub points: Vec<CoordPoint>,
    pub color_bgr: i32,
    pub line_width_index: i32,
    pub owner_part_id: i32,
}

/// An arc. Its angles are held as the text the record carries (degrees
/// with three decimals); the start angle is absent when it is zero.
#[derive(Debug)]
pub struct Arc {
    pub center: CoordPoint,
    pub radius_raw: i64,
    pub start_angle: Option<String>,
    pub end_angle: String,
    pub color_bgr: i32,
    pub line_width_index: i32,
    pub owner_part_id: i32,
}

#[derive(Debug, Clone, Copy)]
pub struct Ellipse {
    pub center: CoordPoint,
    pub radius_x_raw: i64,
    pub radius_y_raw: i64,
    pub color_bgr: i32,
    pub fill_color_bgr: i32,
    pub is_filled: bool,
    pub is_transparent: bool,
    pub line_width_index: i32,
    pub owner_part_id: i32,
}

#[derive(Debug)]
pub struct Label {
    pub text: String,
    pub location: CoordPoint,
    pub orientation: u8,
    pub color_bgr: i32,
    pub owner_part_id: i32,
}

/// One schematic component, ready to be written.
#[derive(Debug)]
pub struct Component {
    pub name: String,
    pub description: String,
    pub part_count: usize,
    pub pins: Vec<Pin>,
    pub rectangles: Vec<Rectangle>,
    pub polylines: Vec<Polyline>,
    pub arcs: Vec<Arc>,
    pub ellipses: Vec<Ellipse>,
    pub labels: Vec<Label>,
}

/// The number of records the component's stream holds besides its
/// graphics and pins.
pub open spec fn spec_schlib_weight(c: Component) -> nat {
    1 + c.rectangles@.len() + c.labels@.len() + c.polylines@.len() + c.arcs@.len()
        + c.ellipses@.len() + c.pins@.len() + 3
}

/// What the machine's integers require of a component to be written.
pub open spec fn fits(c: Component) -> bool {
    &&& spec_schlib_weight(c) <= usize::MAX
    &&& c.part_count < usize::MAX
}

/// The record weight the file header states.
pub fn schlib_weight(component: &Component) -> (r: usize)
    requires
        fits(*component),
    ensures
        r == spec_schlib_weight(*component),
{
    1 + component.rectangles.len() + component.labels.len() + component.polylines.len()
        + component.arcs.len() + component.ellipses.len() + component.pins.len() + 3
}

// ---------------------------------------------------------------------------
// Record parameters
// ---------------------------------------------------------------------------

/// The parameters that give a record its owning part.
pub open spec fn owned_part(owner_part_id: i32) -> Seq<ParamView> {
    bool_param("ISNOTACCESIBLE"@, true) + seq![("OWNERPARTID"@, int_decimal(owner_part_id as int))]
}

pub fn push_owned_part(params: &mut Params, owner_part_id: i32)
    ensures
        final(params)@ == old(params)@ + owned_part(owner_part_id),
{
    params.push_bool("ISNOTACCESIBLE", true);
    params.push_int("OWNERPARTID", owner_part_id as i64);
    assert(final(params)@ =~= old(params)@ + owned_part(owner_part_id));
}

/// The salt of a record's unique ID: its kind, owning part, `_` and index.
pub open spec fn salt(kind: Seq<char>, owner_part_id: i32, index: nat) -> Seq<char> {
    kind + int_decimal(owner_part_id as int) + seq!['_'] + decimal(index)
}

fn make_salt(kind: &str, owner_part_id: i32, index: usize) -> (r: String)
    ensures
        r@ == salt(kind@, owner_part_id, index as nat),
{
    let mut r = String::from_str(kind);
    let owner = i64_to_string(owner_part_id as i64);
    push_str(&mut r, owner.as_str());
    push_char(&mut r, '_');
    let idx = u64_to_string(index as u64);
    push_str(&mut r, idx.as_str());
    r
}

fn push_unique_id(params: &mut Params, name: &str, salt_text: &str)
    ensures
        final(params)@ == old(params)@.push(("UNIQUEID"@, spec_unique_id(name@, salt_text@))),
{
    let id = stable_unique_id(name, salt_text);
    params.push("UNIQUEID", id.as_str());
}

pub open spec fn rect_params(name: Seq<char>, r: Rectangle, index: nat) -> Seq<ParamView> {
    seq![("RECORD"@, "14"@)] + owned_part(r.owner_part_id) + coord_params(
        "LOCATION.X"@,
        r.corner1.x_raw as int,
    ) + coord_params("LOCATION.Y"@, r.corner1.y_raw as int) + coord_params(
        "CORNER.X"@,
        r.corner2.x_raw as int,
    ) + coord_params("CORNER.Y"@, r.corner2.y_raw as int) + seq![
        ("LINEWIDTH"@, int_decimal(r.line_width_index as int)),
    ] + non_zero_param("COLOR"@, r.color_bgr as int) + seq![
        ("AREACOLOR"@, int_decimal(r.fill_color_bgr as int)),
    ] + bool_param("ISSOLID"@, r.is_filled) + bool_param("TRANSPARENT"@, r.is_transparent) + seq![
        ("UNIQUEID"@, spec_unique_id(name, salt("RECT"@, r.owner_part_id, index))),
    ]
}

fn rect_record(name: &str, r: &Rectangle, index: usize) -> (p: Params)
    ensures
        p@ == rect_params(name@, *r, index as nat),
{
    let mut p = Params::new();
    p.push("RECORD", "14");
    push_owned_part(&mut p, r.owner_part_id);
    p.push_coord("LOCATION.X", r.corner1.x_raw);
    p.push_coord("LOCATION.Y", r.corner1.y_raw);
    p.push_coord("CORNER.X", r.corner2.x_raw);
    p.push_coord("CORNER.Y", r.corner2.y_raw);
    p.push_int("LINEWIDTH", r.line_width_index as i64);
    p.push_non_zero("COLOR", r.color_bgr);
    p.push_int("AREACOLOR", r.fill_color_bgr as i64);
    p.push_bool("ISSOLID", r.is_filled);
    p.push_bool("TRANSPARENT", r.is_transparent);
    let s = make_salt("RECT", r.owner_part_id, index);
    push_unique_id(&mut p, name, s.as_str());
    assert(p@ =~= rect_params(name@, *r, index as nat));
    p
}

pub open spec fn label_params(name: Seq<char>, l: Label, index: nat) -> Seq<ParamView> {
    seq![("RECORD"@, "4"@)] + owned_part(l.owner_part_id) + coord_params(
        "LOCATION.X"@,
        l.location.x_raw as int,
    ) + coord_params("LOCATION.Y"@, l.location.y_raw as int) + seq![
        ("FONTID"@, "1"@),
        ("TEXT"@, l.text@),
    ] + non_zero_param("COLOR"@, l.color_bgr as int) + non_zero_param(
        "ORIENTATION"@,
        l.orientation as int,
    ) + seq![("UNIQUEID"@, spec_unique_id(name, salt("TEXT"@, l.owner_part_id, index)))]
}

fn label_record(name: &str, l: &Label, index: usize) -> (p: Params)
    ensures
        p@ == label_params(name@, *l, index as nat),
{
    let mut p = Params::new();
    p.push("RECORD", "4");
    push_owned_part(&mut p, l.owner_part_id);
    p.push_coord("LOCATION.X", l.location.x_raw);
    p.push_coord("LOCATION.Y", l.location.y_raw);
    p.push("FONTID", "1");
    p.push("TEXT", l.text.as_str());
    p.push_non_zero("COLOR", l.color_bgr);
    p.push_non_zero("ORIENTATION", l.orientation as i32);
    let s = make_salt("TEXT", l.owner_part_id, index);
    push_unique_id(&mut p, name, s.as_str());
    assert(p@ =~= label_params(name@, *l, index as nat));
    p
}

/// The `Xn`/`Yn` coordinates of the first `k` points, numbered from 1.
pub open spec fn point_params(pts: Seq<CoordPoint>, k: nat) -> Seq<ParamView>
    decreases k,
{
    if k == 0 {
        Seq::empty()
    } else {
        point_params(pts, (k - 1) as nat) + coord_params(
            seq!['X'] + decimal(k),
            pts[k - 1].x_raw as int,
        ) + coord_params(seq!['Y'] + decimal(k), pts[k - 1].y_raw as int)
    }
}

pub open spec fn polyline_params(name: Seq<char>, l: Polyline, index: nat) -> Seq<ParamView> {
    seq![("RECORD"@, "6"@)] + owned_part(l.owner_part_id) + seq![
        ("LINEWIDTH"@, int_decimal(l.line_width_index as int)),
    ] + non_zero_param("COLOR"@, l.color_bgr as int) + seq![
        ("LOCATIONCOUNT"@, decimal(l.points@.len())),
    ] + point_params(l.points@, l.points@.len()) + seq![
        ("UNIQUEID"@, spec_unique_id(name, salt("POLY"@, l.owner_part_id, index))),
    ]
}

fn numbered_key(letter: char, n: usize) -> (r: String)
    ensures
        r@ == seq![letter] + decimal(n as nat),
{
    let mut r = String::new();
    push_char(&mut r, letter);
    let d = u64_to_string(n as u64);
    push_str(&mut r, d.as_str());
    r
}

fn polyline_record(name: &str, l: &Polyline, index: usize) -> (p: Params)
    ensures
        p@ == polyline_params(name@, *l, index as nat),
{
    let mut p = Params::new();
    p.push("RECORD", "6");
    push_owned_part(&mut p, l.owner_part_id);
    p.push_int("LINEWIDTH", l.line_width_index as i64);
    p.push_non_zero("COLOR", l.color_bgr);
    let count = u64_to_string(l.points.len() as u64);
    p.push("LOCATIONCOUNT", count.as_str());
    let ghost head = p@;
    let mut j: usize = 0;
    while j < l.points.len()
        invariant
            j <= l.points@.len(),
            p@ == head + point_params(l.points@, j as nat),
        decreases l.points.len() - j,
    {
        let pt = l.points[j];
        let xk = numbered_key('X', j + 1);
        let yk = numbered_key('Y', j + 1);
        p.push_coord(xk.as_str(), pt.x_raw);
        p.push_coord(yk.as_str(), pt.y_raw);
        assert(p@ =~= head + point_params(l.points@, (j + 1) as nat));
        j += 1;
    }
    let s = make_salt("POLY", l.owner_part_id, index);
    push_unique_id(&mut p, name, s.as_str());
    assert(p@ =~= polyline_params(name@, *l, index as nat));
    p
}

/// The start-angle parameter, when the arc has one.
pub open spec fn start_angle_param(a: Option<String>) -> Seq<ParamView> {
    match a {
        Some(t) => seq![("STARTANGLE"@, t@)],
        None => Seq::empty(),
    }
}

pub open spec fn arc_params(name: Seq<char>, a: Arc, index: nat) -> Seq<ParamView> {
    seq![("RECORD"@, "12"@)] + owned_part(a.owner_part_id) + coord_params(
        "LOCATION.X"@,
        a.center.x_raw as int,
    ) + coord_params("LOCATION.Y"@, a.center.y_raw as int) + coord_params(
        "RADIUS"@,
        a.radius_raw as int,
    ) + seq![("LINEWIDTH"@, int_decimal(a.line_width_index as int))] + start_angle_param(
        a.start_angle,
    ) + seq![("ENDANGLE"@, a.end_angle@)] + non_zero_param("COLOR"@, a.color_bgr as int) + seq![
        ("UNIQUEID"@, spec_unique_id(name, salt("ARC"@, a.owner_part_id, index))),
    ]
}

fn arc_record(name: &str, a: &Arc, index: usize) -> (p: Params)
    ensures
        p@ == arc_params(name@, *a, index as nat),
{
    let mut p = Params::new();
    p.push("RECORD", "12");
    push_owned_part(&mut p, a.owner_part_id);
    p.push_coord("LOCATION.X", a.center.x_raw);
    p.push_coord("LOCATION.Y", a.center.y_raw);
    p.push_coord("RADIUS", a.radius_raw);
    p.push_int("LINEWIDTH", a.line_width_index as i64);
    let ghost before = p@;
    match &a.start_angle {
        Some(t) => {
            p.push("STARTANGLE", t.as_str());
        },
        None => {},
    }
    assert(p@ =~= before + start_angle_param(a.start_angle));
    p.push("ENDANGLE", a.end_angle.as_str());
    p.push_non_zero("COLOR", a.color_bgr);
    let s = make_salt("ARC", a.owner_part_id, index);
    push_unique_id(&mut p, name, s.as_str());
    assert(p@ =~= arc_params(name@, *a, index as nat));
    p
}

pub open spec fn ellipse_params(name: Seq<char>, e: Ellipse, index: nat) -> Seq<ParamView> {
    seq![("RECORD"@, "8"@)] + owned_part(e.owner_part_id) + coord_params(
        "LOCATION.X"@,
        e.center.x_raw as int,
    ) + coord_params("LOCATION.Y"@, e.center.y_raw as int) + coord_params(
        "RADIUS"@,
        e.radius_x_raw as int,
    ) + coord_params("SECONDARYRADIUS"@, e.radius_y_raw as int) + seq![
        ("LINEWIDTH"@, int_decimal(e.line_width_index as int)),
    ] + non_zero_param("COLOR"@, e.color_bgr as int) + seq![
        ("AREACOLOR"@, int_decimal(e.fill_color_bgr as int)),
    ] + bool_param("ISSOLID"@, e.is_filled) + bool_param("TRANSPARENT"@, e.is_transparent) + seq![
        ("UNIQUEID"@, spec_unique_id(name, salt("ELLIPSE"@, e.owner_part_id, index))),
    ]
}

fn ellipse_record(name: &str, e: &Ellipse, index: usize) -> (p: Params)
    ensures
        p@ == ellipse_params(name@, *e, index as nat),
{
    let mut p = Params::new();
    p.push("RECORD", "8");
    push_owned_part(&mut p, e.owner_part_id);
    p.push_coord("LOCATION.X", e.center.x_raw);
    p.push_coord("LOCATION.Y", e.center.y_raw);
    p.push_coord("RADIUS", e.radius_x_raw);
    p.push_coord("SECONDARYRADIUS", e.radius_y_raw);
    p.push_int("LINEWIDTH", e.line_width_index as i64);
    p.push_non_zero("COLOR", e.color_bgr);
    p.push_int("AREACOLOR", e.fill_color_bgr as i64);
    p.push_bool("ISSOLID", e.is_filled);
    p.push_bool("TRANSPARENT", e.is_transparent);
    let s = make_salt("ELLIPSE", e.owner_part_id, index);
    push_unique_id(&mut p, name, s.as_str());
    assert(p@ =~= ellipse_params(name@, *e, index as nat));
    p
}

// ---------------------------------------------------------------------------
// Pins
// ---------------------------------------------------------------------------

/// The flag byte of a pin: its orientation in the low two bits, then `8`
/// when the name shows and `16` when the designator shows.
pub open spec fn spec_pin_conglomerate(orientation: u8, show_name: bool, show_designator: bool) -> u8 {
    (orientation & 3u8) | (if show_name {
        8u8
    } else {
        0u8
    }) | (if show_designator {
        16u8
    } else {
        0u8
    })
}

/// The flag byte of a pin record.
pub fn pin_conglomerate(pin: &Pin) -> (r: u8)
    ensures
        r == spec_pin_conglomerate(pin.orientation, pin.show_name, pin.show_designator),
{
    (pin.orientation & 3u8) | (if pin.show_name {
        8u8
    } else {
        0u8
    }) | (if pin.show_designator {
        16u8
    } else {
        0u8
    })
}

/// The pin flag byte gives back the orientation (modulo 4) and both
/// visibility flags.
pub proof fn lemma_pin_conglomerate_decodes(orientation: u8, show_name: bool, show_designator: bool)
    ensures
        spec_pin_conglomerate(orientation, show_name, show_designator) & 3u8 == orientation % 4,
        (spec_pin_conglomerate(orientation, show_name, show_designator) & 8u8 != 0) == show_name,
        (spec_pin_conglomerate(orientation, show_name, show_designator) & 16u8 != 0)
            == show_designator,
{
    let n: u8 = if show_name {
        8u8
    } else {
        0u8
    };
    let d: u8 = if show_designator {
        16u8
    } else {
        0u8
    };
    let o = orientation;
    assert(((o & 3u8) | n | d) & 3u8 == o % 4) by (bit_vector)
        requires
            n == 8u8 || n == 0u8,
            d == 16u8 || d == 0u8,
    ;
    assert((((o & 3u8) | n | d) & 8u8 != 0) == (n == 8u8)) by (bit_vector)
        requires
            n == 8u8 || n == 0u8,
            d == 16u8 || d == 0u8,
    ;
    assert((((o & 3u8) | n | d) & 16u8 != 0) == (d == 16u8)) by (bit_vector)
        requires
            n == 8u8 || n == 0u8,
            d == 16u8 || d == 0u8,
    ;
}

/// A part number held to the `i16` range.
pub open spec fn clamp_i16(x: int) -> int {
    if x < -32768 {
        -32768
    } else if x > 32767 {
        32767
    } else {
        x
    }
}

/// The payload of a pin's binary record.
pub open spec fn pin_body(p: Pin) -> Seq<u8> {
    le_i32(2) + seq![0u8] + le_i16(clamp_i16(p.owner_part_id as int)) + seq![
        p.owner_part_display_mode as u8,
        0u8,
        0u8,
        0u8,
        0u8,
        0u8,
        0u8,
        4u8,
        spec_pin_conglomerate(p.orientation, p.show_name, p.show_designator),
    ] + le_i16(spec_dxp_i16(p.length_raw as int)) + le_i16(spec_dxp_i16(p.location.x_raw as int))
        + le_i16(spec_dxp_i16(p.location.y_raw as int)) + le_i32(p.color_bgr as int) + pascal(
        encode_utf8(p.name@),
    ) + pascal(encode_utf8(p.designator@)) + seq![0u8, 0u8, 0u8]
}

fn pin_record(pin: &Pin) -> (r: Vec<u8>)
    ensures
        r@ == pin_body(*pin),
{
    let mut w = BinaryWriter::new();
    w.write_i32(2);
    w.write_u8(0);
    let owner: i16 = if pin.owner_part_id < -32768 {
        -32768
    } else if pin.owner_part_id > 32767 {
        32767
    } else {
        pin.owner_part_id as i16
    };
    w.write_i16(owner);
    w.write_u8(pin.owner_part_display_mode as u8);
    w.write_u8(0);
    w.write_u8(0);
    w.write_u8(0);
    w.write_u8(0);
    w.write_u8(0);
    w.write_u8(0);
    w.write_u8(4);
    w.write_u8(pin_conglomerate(pin));
    w.write_i16(crate::altium::dxp_i16(pin.length_raw));
    w.write_i16(crate::altium::dxp_i16(pin.location.x_raw));
    w.write_i16(crate::altium::dxp_i16(pin.location.y_raw));
    w.write_i32(pin.color_bgr);
    w.write_pascal_short_string(pin.name.as_str());
    w.write_pascal_short_string(pin.designator.as_str());
    w.write_u8(0);
    w.write_u8(0);
    w.write_u8(0);
    assert(w.bytes@ =~= pin_body(*pin));
    w.into_inner()
}

// ---------------------------------------------------------------------------
// The component stream
// ---------------------------------------------------------------------------

/// The parameters of the component record that opens the stream.
pub open spec fn component_header_params(c: Component) -> Seq<ParamView> {
    seq![
        ("RECORD"@, "1"@),
        ("LIBREFERENCE"@, c.name@),
        ("COMPONENTDESCRIPTION"@, c.description@),
        ("PARTCOUNT"@, decimal((c.part_count + 1) as nat)),
        ("DISPLAYMODECOUNT"@, "1"@),
        ("OWNERPARTID"@, "-1"@),
        ("CURRENTPARTID"@, "1"@),
        ("LIBRARYPATH"@, "*"@),
        ("SOURCELIBRARYNAME"@, "*"@),
        ("SHEETPARTFILENAME"@, "*"@),
        ("TARGETFILENAME"@, "*"@),
        ("UNIQUEID"@, spec_unique_id(c.name@, "COMP"@)),
        ("AREACOLOR"@, "11599871"@),
        ("COLOR"@, "128"@),
        ("PARTIDLOCKED"@, "T"@),
        ("DESIGNITEMID"@, c.name@),
    ] + (if c.pins@.len() > 0 {
        seq![("ALLPINCOUNT"@, decimal(c.pins@.len()))]
    } else {
        Seq::empty()
    })
}

/// The designator parameter record.
pub open spec fn designator_params(name: Seq<char>) -> Seq<ParamView> {
    seq![
        ("RECORD"@, "34"@),
        ("OWNERPARTID"@, "-1"@),
        ("LOCATION.X_FRAC"@, "-5"@),
        ("LOCATION.Y_FRAC"@, "5"@),
        ("COLOR"@, "8388608"@),
        ("FONTID"@, "1"@),
        ("TEXT"@, "*"@),
        ("NAME"@, "Designator"@),
        ("READONLYSTATE"@, "1"@),
        ("UNIQUEID"@, spec_unique_id(name, "DESIGNATOR"@)),
    ]
}

/// The comment parameter record.
pub open spec fn comment_params(name: Seq<char>) -> Seq<ParamView> {
    seq![
        ("RECORD"@, "41"@),
        ("OWNERPARTID"@, "-1"@),
        ("LOCATION.X_FRAC"@, "-5"@),
        ("LOCATION.Y_FRAC"@, "-15"@),
        ("COLOR"@, "8388608"@),
        ("FONTID"@, "1"@),
        ("ISHIDDEN"@, "T"@),
        ("TEXT"@, "*"@),
        ("NAME"@, "Comment"@),
        ("UNIQUEID"@, spec_unique_id(name, "COMMENT"@)),
    ]
}

/// The record that closes the stream.
pub open spec fn closing_params() -> Seq<ParamView> {
    seq![("RECORD"@, "44"@)]
}

/// A text parameter record, as `(flag, payload)`.
pub open spec fn text_record(ps: Seq<ParamView>) -> (u8, Seq<u8>) {
    (0u8, cstring_payload(ps))
}

pub open spec fn rect_records(c: Component) -> Seq<(u8, Seq<u8>)> {
    Seq::new(
        c.rectangles@.len(),
        |i: int| text_record(rect_params(c.name@, c.rectangles@[i], i as nat)),
    )
}

pub open spec fn label_records(c: Component) -> Seq<(u8, Seq<u8>)> {
    Seq::new(c.labels@.len(), |i: int| text_record(label_params(c.name@, c.labels@[i], i as nat)))
}

pub open spec fn polyline_records(c: Component) -> Seq<(u8, Seq<u8>)> {
    Seq::new(
        c.polylines@.len(),
        |i: int| text_record(polyline_params(c.name@, c.polylines@[i], i as nat)),
    )
}

pub open spec fn arc_records(c: Component) -> Seq<(u8, Seq<u8>)> {
    Seq::new(c.arcs@.len(), |i: int| text_record(arc_params(c.name@, c.arcs@[i], i as nat)))
}

pub open spec fn ellipse_records(c: Component) -> Seq<(u8, Seq<u8>)> {
    Seq::new(
        c.ellipses@.len(),
        |i: int| text_record(ellipse_params(c.name@, c.ellipses@[i], i as nat)),
    )
}

pub open spec fn pin_records(c: Component) -> Seq<(u8, Seq<u8>)> {
    Seq::new(c.pins@.len(), |i: int| (1u8, pin_body(c.pins@[i])))
}

/// The records of a component's stream, in order: the component, its
/// rectangles, labels, polylines, arcs, ellipses and pins, then the
/// designator, the comment, and the closing record.
pub open spec fn component_records(c: Component) -> Seq<(u8, Seq<u8>)> {
    seq![text_record(component_header_params(c))] + rect_records(c) + label_records(c)
        + polyline_records(c) + arc_records(c) + ellipse_records(c) + pin_records(c) + seq![
        text_record(designator_params(c.name@)),
        text_record(comment_params(c.name@)),
        text_record(closing_params()),
    ]
}

/// The bytes of a component's stream: its records as blocks.
pub open spec fn spec_component_data(c: Component) -> Seq<u8> {
    concat_blocks(component_records(c))
}

proof fn lemma_concat_push(rs: Seq<(u8, Seq<u8>)>, r: (u8, Seq<u8>))
    ensures
        concat_blocks(rs.push(r)) == concat_blocks(rs) + block(r.0, r.1),
{
    assert(rs.push(r).drop_last() =~= rs);
}

fn write_text_record(w: &mut BinaryWriter, p: &Params, Ghost(recs): Ghost<Seq<(u8, Seq<u8>)>>)
    requires
        old(w).bytes@ == concat_blocks(recs),
    ensures
        final(w).bytes@ == concat_blocks(recs.push(text_record(p@))),
{
    w.write_cstring_param_block(p);
    proof {
        lemma_concat_push(recs, text_record(p@));
    }
}

fn component_header_record(c: &Component) -> (p: Params)
    requires
        fits(*c),
    ensures
        p@ == component_header_params(*c),
{
    let mut p = Params::new();
    p.push("RECORD", "1");
    p.push("LIBREFERENCE", c.name.as_str());
    p.push("COMPONENTDESCRIPTION", c.description.as_str());
    let parts = u64_to_string((c.part_count + 1) as u64);
    p.push("PARTCOUNT", parts.as_str());
    p.push("DISPLAYMODECOUNT", "1");
    p.push("OWNERPARTID", "-1");
    p.push("CURRENTPARTID", "1");
    p.push("LIBRARYPATH", "*");
    p.push("SOURCELIBRARYNAME", "*");
    p.push("SHEETPARTFILENAME", "*");
    p.push("TARGETFILENAME", "*");
    let uid = stable_unique_id(c.name.as_str(), "COMP");
    p.push("UNIQUEID", uid.as_str());
    p.push("AREACOLOR", "11599871");
    p.push("COLOR", "128");
    p.push("PARTIDLOCKED", "T");
    p.push("DESIGNITEMID", c.name.as_str());
    if c.pins.len() > 0 {
        let count = u64_to_string(c.pins.len() as u64);
        p.push("ALLPINCOUNT", count.as_str());
    }
    assert(p@ =~= component_header_params(*c));
    p
}

fn designator_record(name: &str) -> (p: Params)
    ensures
        p@ == designator_params(name@),
{
    let mut d = Params::new();
    d.push("RECORD", "34");
    d.push("OWNERPARTID", "-1");
    d.push("LOCATION.X_FRAC", "-5");
    d.push("LOCATION.Y_FRAC", "5");
    d.push("COLOR", "8388608");
    d.push("FONTID", "1");
    d.push("TEXT", "*");
    d.push("NAME", "Designator");
    d.push("READONLYSTATE", "1");
    let uid = stable_unique_id(name, "DESIGNATOR");
    d.push("UNIQUEID", uid.as_str());
    assert(d@ =~= designator_params(name@));
    d
}

fn comment_record(name: &str) -> (p: Params)
    ensures
        p@ == comment_params(name@),
{
    let mut c = Params::new();
    c.push("RECORD", "41");
    c.push("OWNERPARTID", "-1");
    c.push("LOCATION.X_FRAC", "-5");
    c.push("LOCATION.Y_FRAC", "-15");
    c.push("COLOR", "8388608");
    c.push("FONTID", "1");
    c.push("ISHIDDEN", "T");
    c.push("TEXT", "*");
    c.push("NAME", "Comment");
    let uid = stable_unique_id(name, "COMMENT");
    c.push("UNIQUEID", uid.as_str());
    assert(c@ =~= comment_params(name@));
    c
}

fn write_rect_records(w: &mut BinaryWriter, c: &Component, Ghost(base): Ghost<Seq<(u8, Seq<u8>)>>)
    requires
        old(w).bytes@ == concat_blocks(base),
    ensures
        final(w).bytes@ == concat_blocks(base + rect_records(*c)),
{
    let name = c.name.as_str();
    let ghost mut recs = base;
    assert(rect_records(*c).take(0) =~= Seq::<(u8, Seq<u8>)>::empty());
    assert(base + rect_records(*c).take(0) =~= base);
    let mut i: usize = 0;
    while i < c.rectangles.len()
        invariant
            i <= c.rectangles@.len(),
            name@ == c.name@,
            w.bytes@ == concat_blocks(recs),
            recs == base + rect_records(*c).take(i as int),
        decreases c.rectangles.len() - i,
    {
        let p = rect_record(name, &c.rectangles[i], i);
        write_text_record(w, &p, Ghost(recs));
        proof {
            recs = recs.push(text_record(p@));
            assert(rect_records(*c).take(i + 1) =~= rect_records(*c).take(i as int).push(text_record(p@)));
            assert(base + rect_records(*c).take(i + 1) =~= (base + rect_records(*c).take(i as int)).push(
                text_record(p@),
            ));
        }
        i += 1;
    }
    assert(rect_records(*c).take(i as int) =~= rect_records(*c));
}

fn write_label_records(w: &mut BinaryWriter, c: &Component, Ghost(base): Ghost<Seq<(u8, Seq<u8>)>>)
    requires
        old(w).bytes@ == concat_blocks(base),
    ensures
        final(w).bytes@ == concat_blocks(base + label_records(*c)),
{
    let name = c.name.as_str();
    let ghost mut recs = base;
    assert(label_records(*c).take(0) =~= Seq::<(u8, Seq<u8>)>::empty());
    assert(base + label_records(*c).take(0) =~= base);
    let mut i: usize = 0;
    while i < c.labels.len()
        invariant
            i <= c.labels@.len(),
            name@ == c.name@,
            w.bytes@ == concat_blocks(recs),
            recs == base + label_records(*c).take(i as int),
        decreases c.labels.len() - i,
    {
        let p = label_record(name, &c.labels[i], i);
        write_text_record(w, &p, Ghost(recs));
        proof {
            recs = recs.push(text_record(p@));
            assert(label_records(*c).take(i + 1) =~= label_records(*c).take(i as int).push(text_record(p@)));
            assert(base + label_records(*c).take(i + 1) =~= (base + label_records(*c).take(i as int)).push(
                text_record(p@),
            ));
        }
        i += 1;
    }
    assert(label_records(*c).take(i as int) =~= label_records(*c));
}

fn write_polyline_records(w: &mut BinaryWriter, c: &Component, Ghost(base): Ghost<Seq<(u8, Seq<u8>)>>)
    requires
        old(w).bytes@ == concat_blocks(base),
    ensures
        final(w).bytes@ == concat_blocks(base + polyline_records(*c)),
{
    let name = c.name.as_str();
    let ghost mut recs = base;
    assert(polyline_records(*c).take(0) =~= Seq::<(u8, Seq<u8>)>::empty());
    assert(base + polyline_records(*c).take(0) =~= base);
    let mut i: usize = 0;
    while i < c.polylines.len()
        invariant
            i <= c.polylines@.len(),
            name@ == c.name@,
            w.bytes@ == concat_blocks(recs),
            recs == base + polyline_records(*c).take(i as int),
        decreases c.polylines.len() - i,
    {
        let p = polyline_record(name, &c.polylines[i], i);
        write_text_record(w, &p, Ghost(recs));
        proof {
            recs = recs.push(text_record(p@));
            assert(polyline_records(*c).take(i + 1) =~= polyline_records(*c).take(i as int).push(text_record(p@)));
            assert(base + polyline_records(*c).take(i + 1) =~= (base + polyline_records(*c).take(i as int)).push(
                text_record(p@),
            ));
        }
        i += 1;
    }
    assert(polyline_records(*c).take(i as int) =~= polyline_records(*c));
}

fn write_arc_records(w: &mut BinaryWriter, c: &Component, Ghost(base): Ghost<Seq<(u8, Seq<u8>)>>)
    requires
        old(w).bytes@ == concat_blocks(base),
    ensures
        final(w).bytes@ == concat_blocks(base + arc_records(*c)),
{
    let name = c.name.as_str();
    let ghost mut recs = base;
    assert(arc_records(*c).take(0) =~= Seq::<(u8, Seq<u8>)>::empty());
    assert(base + arc_records(*c).take(0) =~= base);
    let mut i: usize = 0;
    while i < c.arcs.len()
        invariant
            i <= c.arcs@.len(),
            name@ == c.name@,
            w.bytes@ == concat_blocks(recs),
            recs == base + arc_records(*c).take(i as int),
        decreases c.arcs.len() - i,
    {
        let p = arc_record(name, &c.arcs[i], i);
        write_text_record(w, &p, Ghost(recs));
        proof {
            recs = recs.push(text_record(p@));
            assert(arc_records(*c).take(i + 1) =~= arc_records(*c).take(i as int).push(text_record(p@)));
            assert(base + arc_records(*c).take(i + 1) =~= (base + arc_records(*c).take(i as int)).push(
                text_record(p@),
            ));
        }
        i += 1;
    }
    assert(arc_records(*c).take(i as int) =~= arc_records(*c));
}

fn write_ellipse_records(w: &mut BinaryWriter, c: &Component, Ghost(base): Ghost<Seq<(u8, Seq<u8>)>>)
    requires
        old(w).bytes@ == concat_blocks(base),
    ensures
        final(w).bytes@ == concat_blocks(base + ellipse_records(*c)),
{
    let name = c.name.as_str();
    let ghost mut recs = base;
    assert(ellipse_records(*c).take(0) =~= Seq::<(u8, Seq<u8>)>::empty());
    assert(base + ellipse_records(*c).take(0) =~= base);
    let mut i: usize = 0;
    while i < c.ellipses.len()
        invariant
            i <= c.ellipses@.len(),
            name@ == c.name@,
            w.bytes@ == concat_blocks(recs),
            recs == base + ellipse_records(*c).take(i as int),
        decreases c.ellipses.len() - i,
    {
        let p = ellipse_record(name, &c.ellipses[i], i);
        write_text_record(w, &p, Ghost(recs));
        proof {
            recs = recs.push(text_record(p@));
            assert(ellipse_records(*c).take(i + 1) =~= ellipse_records(*c).take(i as int).push(text_record(p@)));
            assert(base + ellipse_records(*c).take(i + 1) =~= (base + ellipse_records(*c).take(i as int)).push(
                text_record(p@),
            ));
        }
        i += 1;
    }
    assert(ellipse_records(*c).take(i as int) =~= ellipse_records(*c));
}

fn write_pin_records(w: &mut BinaryWriter, c: &Component, Ghost(base): Ghost<Seq<(u8, Seq<u8>)>>)
    requires
        old(w).bytes@ == concat_blocks(base),
    ensures
        final(w).bytes@ == concat_blocks(base + pin_records(*c)),
{
    let ghost mut recs = base;
    assert(base + pin_records(*c).take(0) =~= base);
    let mut i: usize = 0;
    while i < c.pins.len()
        invariant
            i <= c.pins@.len(),
            w.bytes@ == concat_blocks(recs),
            recs == base + pin_records(*c).take(i as int),
        decreases c.pins.len() - i,
    {
        let body = pin_record(&c.pins[i]);
        w.write_block(1, body.as_slice());
        proof {
            lemma_concat_push(recs, (1u8, body@));
            recs = recs.push((1u8, body@));
            assert(pin_records(*c).take(i + 1) =~= pin_records(*c).take(i as int).push((1u8, body@)));
            assert(base + pin_records(*c).take(i + 1) =~= (base + pin_records(*c).take(i as int)).push(
                (1u8, body@),
            ));
        }
        i += 1;
    }
    assert(pin_records(*c).take(i as int) =~= pin_records(*c));
}

/// The bytes of the component's record stream (`/<section key>/Data`).
#[verifier::rlimit(60)]
pub fn component_data_bytes(component: &Component) -> (r: Vec<u8>)
    requires
        fits(*component),
    ensures
        r@ == spec_component_data(*component),
{
    let c = component;
    let name = c.name.as_str();
    let mut w = BinaryWriter::new();
    let header = component_header_record(c);
    let ghost r0: Seq<(u8, Seq<u8>)> = Seq::empty();
    write_text_record(&mut w, &header, Ghost(r0));
    let ghost r1 = r0.push(text_record(header@));
    write_rect_records(&mut w, c, Ghost(r1));
    let ghost r2 = r1 + rect_records(*c);
    write_label_records(&mut w, c, Ghost(r2));
    let ghost r3 = r2 + label_records(*c);
    write_polyline_records(&mut w, c, Ghost(r3));
    let ghost r4 = r3 + polyline_records(*c);
    write_arc_records(&mut w, c, Ghost(r4));
    let ghost r5 = r4 + arc_records(*c);
    write_ellipse_records(&mut w, c, Ghost(r5));
    let ghost r6 = r5 + ellipse_records(*c);
    write_pin_records(&mut w, c, Ghost(r6));
    let ghost r7 = r6 + pin_records(*c);
    let d = designator_record(name);
    write_text_record(&mut w, &d, Ghost(r7));
    let ghost r8 = r7.push(text_record(d@));
    let cm = comment_record(name);
    write_text_record(&mut w, &cm, Ghost(r8));
    let ghost r9 = r8.push(text_record(cm@));
    let mut f = Params::new();
    f.push("RECORD", "44");
    assert(f@ =~= closing_params());
    write_text_record(&mut w, &f, Ghost(r9));
    assert(r9.push(text_record(f@)) =~= component_records(*c));
    w.into_inner()
}

/// The bytes of the Pascal short string that starts at `at`: its length
/// byte, then that many bytes.
pub open spec fn pascal_at(b: Seq<u8>, at: int) -> Seq<u8> {
    b.subrange(at + 1, at + 1 + b[at] as int)
}

/// The bytes a Pascal short string keeps of `x`: at most the first 255.
pub open spec fn short_bytes(x: Seq<u8>) -> Seq<u8> {
    if x.len() <= 255 {
        x
    } else {
        x.take(255)
    }
}

/// Where pin `i`'s record stands among the component's records: after the
/// component record and every rectangle, label, polyline, arc and ellipse.
pub open spec fn pin_record_index(c: Component, i: int) -> int {
    1 + c.rectangles@.len() + c.labels@.len() + c.polylines@.len() + c.arcs@.len()
        + c.ellipses@.len() + i
}

proof fn lemma_two_pascals(pre: Seq<u8>, a: Seq<u8>, d: Seq<u8>, z: Seq<u8>)
    requires
        pre.len() == 26,
    ensures
        ({
            let b = pre + pascal(a) + pascal(d) + z;
            &&& b.len() > 26
            &&& 27 + b[26] < b.len()
            &&& pascal_at(b, 26) == short_bytes(a)
            &&& pascal_at(b, 27 + b[26]) == short_bytes(d)
        }),
{
    reveal(pascal);
    let b = pre + pascal(a) + pascal(d) + z;
    let na: int = if a.len() < 255 { a.len() as int } else { 255 };
    let nd: int = if d.len() < 255 { d.len() as int } else { 255 };
    assert(pascal(a).len() == na + 1);
    assert(pascal(d).len() == nd + 1);
    assert(b[26] == pascal(a)[0]);
    assert(b[26] as int == na);
    assert(pascal_at(b, 26) =~= a.take(na));
    assert(short_bytes(a) =~= a.take(na));
    assert(b[27 + na] == pascal(d)[0]);
    assert(b[27 + na] as int == nd);
    assert(pascal_at(b, 27 + b[26]) =~= d.take(nd));
    assert(short_bytes(d) =~= d.take(nd));
}

/// A pin's record reads back to the pin's labels: it is a binary record
/// (flag 1) at the pin's place among the component's records, and after its
/// fixed 26-byte prefix it holds first the pin's name, then the pin's
/// designator, each as a Pascal short string of its UTF-8 bytes.
pub proof fn lemma_pin_record_holds_name_then_designator(c: Component, i: int)
    requires
        0 <= i < c.pins@.len(),
    ensures
        ({
            let k = pin_record_index(c, i);
            let b = component_records(c)[k].1;
            &&& 0 <= k < component_records(c).len()
            &&& component_records(c)[k].0 == 1
            &&& b.len() > 26
            &&& 27 + b[26] < b.len()
            &&& pascal_at(b, 26) == short_bytes(encode_utf8(c.pins@[i].name@))
            &&& pascal_at(b, 27 + b[26]) == short_bytes(encode_utf8(c.pins@[i].designator@))
        }),
{
    reveal(le_i16);
    reveal(le_i32);
    let p = c.pins@[i];
    let pre = le_i32(2) + seq![0u8] + le_i16(clamp_i16(p.owner_part_id as int)) + seq![
        p.owner_part_display_mode as u8,
        0u8,
        0u8,
        0u8,
        0u8,
        0u8,
        0u8,
        4u8,
        spec_pin_conglomerate(p.orientation, p.show_name, p.show_designator),
    ] + le_i16(spec_dxp_i16(p.length_raw as int)) + le_i16(spec_dxp_i16(p.location.x_raw as int))
        + le_i16(spec_dxp_i16(p.location.y_raw as int)) + le_i32(p.color_bgr as int);
    assert(pre.len() == 26);
    let z = seq![0u8, 0u8, 0u8];
    assert(pin_body(p) =~= pre + pascal(encode_utf8(p.name@)) + pascal(encode_utf8(p.designator@))
        + z);
    lemma_two_pascals(pre, encode_utf8(p.name@), encode_utf8(p.designator@), z);
    let head = seq![text_record(component_header_params(c))] + rect_records(c) + label_records(c)
        + polyline_records(c) + arc_records(c) + ellipse_records(c);
    let tail = seq![
        text_record(designator_params(c.name@)),
        text_record(comment_params(c.name@)),
        text_record(closing_params()),
    ];
    assert(component_records(c) == head + pin_records(c) + tail);
    assert(head.len() + i == pin_record_index(c, i));
    assert((head + pin_records(c) + tail)[head.len() + i] == pin_records(c)[i]);
    assert(pin_records(c)[i] == (1u8, pin_body(p)));
}

/// The component stream reads back, block by block, as exactly the records
/// written, in order; and their number is the weight the file header states.
pub proof fn lemma_component_stream_reads_back(c: Component)
    requires
        forall|i: int|
            0 <= i < component_records(c).len() ==> (#[trigger] component_records(c)[i]).1.len()
                < 16777216,
    ensures
        parse_blocks(spec_component_data(c)) == Some(component_records(c)),
        component_records(c).len() == spec_schlib_weight(c),
{
    lemma_blocks_read_back(component_records(c));
}

// ---------------------------------------------------------------------------
// The other streams
// ---------------------------------------------------------------------------

/// The parameters of the library's file header.
pub open spec fn file_header_params(c: Component) -> Seq<ParamView> {
    seq![
        ("HEADER"@, "Protel for Windows - Schematic Library Editor Binary File Version 5.0"@),
        ("WEIGHT"@, decimal(spec_schlib_weight(c))),
        ("MINORVERSION"@, "2"@),
        ("FONTIDCOUNT"@, "1"@),
        ("SIZE1"@, "10"@),
        ("FONTNAME1"@, "Times New Roman"@),
        ("USEMBCS"@, "T"@),
        ("ISBOC"@, "T"@),
        ("SHEETSTYLE"@, "9"@),
        ("SYSTEMFONT"@, "1"@),
        ("BORDERON"@, "T"@),
        ("SHEETNUMBERSPACESIZE"@, "12"@),
        ("AREACOLOR"@, "16317695"@),
        ("SNAPGRIDON"@, "T"@),
        ("SNAPGRIDSIZE"@, "10"@),
        ("VISIBLEGRIDON"@, "T"@),
        ("VISIBLEGRIDSIZE"@, "10"@),
        ("CUSTOMX"@, "18000"@),
        ("CUSTOMY"@, "18000"@),
        ("USECUSTOMSHEET"@, "T"@),
        ("REFERENCEZONESON"@, "T"@),
        ("DISPLAY_UNIT"@, "0"@),
        ("COMPCOUNT"@, "1"@),
        ("LIBREF0"@, c.name@),
        ("COMPDESCR0"@, c.description@),
        ("PARTCOUNT0"@, decimal((c.part_count + 1) as nat)),
    ]
}

/// The `/FileHeader` stream: the header parameters, a count of one
/// component, and the component's name.
pub open spec fn spec_file_header(c: Component) -> Seq<u8> {
    block(0, cstring_payload(file_header_params(c))) + le_i32(1) + block(
        0,
        pascal(encode_utf8(c.name@)),
    )
}

/// The bytes of the `/FileHeader` stream.
pub fn file_header_bytes(component: &Component) -> (r: Vec<u8>)
    requires
        fits(*component),
    ensures
        r@ == spec_file_header(*component),
{
    let c = component;
    let mut w = BinaryWriter::new();
    let mut params = Params::new();
    params.push("HEADER", "Protel for Windows - Schematic Library Editor Binary File Version 5.0");
    let weight = u64_to_string(schlib_weight(c) as u64);
    params.push("WEIGHT", weight.as_str());
    params.push("MINORVERSION", "2");
    params.push("FONTIDCOUNT", "1");
    params.push("SIZE1", "10");
    params.push("FONTNAME1", "Times New Roman");
    params.push("USEMBCS", "T");
    params.push("ISBOC", "T");
    params.push("SHEETSTYLE", "9");
    params.push("SYSTEMFONT", "1");
    params.push("BORDERON", "T");
    params.push("SHEETNUMBERSPACESIZE", "12");
    params.push("AREACOLOR", "16317695");
    params.push("SNAPGRIDON", "T");
    params.push("SNAPGRIDSIZE", "10");
    params.push("VISIBLEGRIDON", "T");
    params.push("VISIBLEGRIDSIZE", "10");
    params.push("CUSTOMX", "18000");
    params.push("CUSTOMY", "18000");
    params.push("USECUSTOMSHEET", "T");
    params.push("REFERENCEZONESON", "T");
    params.push("DISPLAY_UNIT", "0");
    params.push("COMPCOUNT", "1");
    params.push("LIBREF0", c.name.as_str());
    params.push("COMPDESCR0", c.description.as_str());
    let parts = u64_to_string((c.part_count + 1) as u64);
    params.push("PARTCOUNT0", parts.as_str());
    assert(params@ =~= file_header_params(*c));
    w.write_cstring_param_block(&params);
    w.write_i32(1);
    w.write_string_block(c.name.as_str());
    assert(w.bytes@ =~= spec_file_header(*c));
    w.into_inner()
}

/// The parameters of the `/SectionKeys` stream.
pub open spec fn section_keys_params(name: Seq<char>, key: Seq<char>) -> Seq<ParamView> {
    seq![("KeyCount"@, "1"@), ("LibRef0"@, name), ("SectionKey0"@, key)]
}

/// The bytes of the `/SectionKeys` stream, which maps the component name to
/// its storage name.
pub fn section_keys_bytes(component_name: &str, section_key: &str) -> (r: Vec<u8>)
    ensures
        r@ == block(0, cstring_payload(section_keys_params(component_name@, section_key@))),
{
    let mut w = BinaryWriter::new();
    let mut params = Params::new();
    params.push("KeyCount", "1");
    params.push("LibRef0", component_name);
    params.push("SectionKey0", section_key);
    assert(params@ =~= section_keys_params(component_name@, section_key@));
    w.write_cstring_param_block(&params);
    assert(w.bytes@ =~= block(0, cstring_payload(section_keys_params(component_name@, section_key@))));
    w.into_inner()
}

/// The parameters of the `/Storage` stream.
pub open spec fn storage_params() -> Seq<ParamView> {
    seq![("HEADER"@, "Icon storage"@)]
}

/// The bytes of the `/Storage` stream.
pub fn storage_bytes() -> (r: Vec<u8>)
    ensures
        r@ == block(0, cstring_payload(storage_params())),
{
    let mut w = BinaryWriter::new();
    let mut params = Params::new();
    params.push("HEADER", "Icon storage");
    assert(params@ =~= storage_params());
    w.write_cstring_param_block(&params);
    assert(w.bytes@ =~= block(0, cstring_payload(storage_params())));
    w.into_inner()
}

// ---------------------------------------------------------------------------
// The compound file
// ---------------------------------------------------------------------------

/// An entry of the compound file, in the order it is created.
#[derive(Debug)]
pub enum SchLibEntry {
    Storage(String),
    Stream(String, Vec<u8>),
}

/// An entry as mathematics.
pub enum EntryView {
    Storage(Seq<char>),
    Stream(Seq<char>, Seq<u8>),
}

impl View for SchLibEntry {
    type V = EntryView;

    open spec fn view(&self) -> EntryView {
        match self {
            SchLibEntry::Storage(p) => EntryView::Storage(p@),
            SchLibEntry::Stream(p, b) => EntryView::Stream(p@, b@),
        }
    }
}

/// The entries of a component's library, in order: `/FileHeader`; then
/// `/SectionKeys` when the storage name differs from the component name;
/// the storage `/<key>/` and its `/<key>/Data` stream; and `/Storage`.
pub open spec fn spec_schlib_entries(c: Component) -> Seq<EntryView> {
    let key = spec_section_key(c.name@);
    seq![EntryView::Stream("/FileHeader"@, spec_file_header(c))] + (if key != c.name@ {
        seq![
            EntryView::Stream(
                "/SectionKeys"@,
                block(0, cstring_payload(section_keys_params(c.name@, key))),
            ),
        ]
    } else {
        Seq::empty()
    }) + seq![
        EntryView::Storage(seq!['/'] + key + seq!['/']),
        EntryView::Stream(seq!['/'] + key + "/Data"@, spec_component_data(c)),
        EntryView::Stream("/Storage"@, block(0, cstring_payload(storage_params()))),
    ]
}

/// What a schematic library file holds, entry by entry, in the order the
/// entries are created.
pub fn schlib_entries(component: &Component) -> (r: Vec<SchLibEntry>)
    requires
        fits(*component),
    ensures
        r@.map_values(|e: SchLibEntry| e@) == spec_schlib_entries(*component),
{
    let c = component;
    let key = section_key_from_name(c.name.as_str());
    let ghost k = spec_section_key(c.name@);
    let ghost mid: Seq<EntryView> = if k != c.name@ {
        seq![
            EntryView::Stream(
                "/SectionKeys"@,
                block(0, cstring_payload(section_keys_params(c.name@, k))),
            ),
        ]
    } else {
        Seq::empty()
    };
    let mut out: Vec<SchLibEntry> = Vec::new();
    out.push(SchLibEntry::Stream(String::from_str("/FileHeader"), file_header_bytes(c)));
    assert(out@.map_values(|e: SchLibEntry| e@) =~= seq![
        EntryView::Stream("/FileHeader"@, spec_file_header(*c)),
    ]);
    if key != c.name {
        let ghost before = out@.map_values(|e: SchLibEntry| e@);
        let entry = SchLibEntry::Stream(
            String::from_str("/SectionKeys"),
            section_keys_bytes(c.name.as_str(), key.as_str()),
        );
        out.push(entry);
        assert(out@.map_values(|e: SchLibEntry| e@) =~= before.push(entry@));
    }
    assert(out@.map_values(|e: SchLibEntry| e@) =~= seq![
        EntryView::Stream("/FileHeader"@, spec_file_header(*c)),
    ] + mid);
    let ghost head = out@.map_values(|e: SchLibEntry| e@);
    let mut storage = String::new();
    push_char(&mut storage, '/');
    push_str(&mut storage, key.as_str());
    push_char(&mut storage, '/');
    assert(storage@ =~= seq!['/'] + k + seq!['/']);
    let e1 = SchLibEntry::Storage(storage);
    assert(e1@ == EntryView::Storage(seq!['/'] + k + seq!['/']));
    out.push(e1);
    let mut data_path = String::new();
    push_char(&mut data_path, '/');
    push_str(&mut data_path, key.as_str());
    push_str(&mut data_path, "/Data");
    assert(data_path@ =~= seq!['/'] + k + "/Data"@);
    let e2 = SchLibEntry::Stream(data_path, component_data_bytes(c));
    assert(e2@ == EntryView::Stream(seq!['/'] + k + "/Data"@, spec_component_data(*c)));
    out.push(e2);
    let e3 = SchLibEntry::Stream(String::from_str("/Storage"), storage_bytes());
    out.push(e3);
    assert(out@.map_values(|e: SchLibEntry| e@) =~= head.push(e1@).push(e2@).push(e3@));
    assert(out@.map_values(|e: SchLibEntry| e@) =~= spec_schlib_entries(*c));
    out
}

// ---------------------------------------------------------------------------
// Decisions taken while a symbol is converted
// ---------------------------------------------------------------------------

/// The fill of a body that is only drawn around more complex graphics.
pub const WHITE_BGR: i32 = 16777215;
/// The fill of a plain body.
pub const FILL_BGR: i32 = 11599871;

/// An attribute value that is set and not blank.
pub open spec fn given(v: Option<Seq<char>>) -> bool {
    v matches Some(t) && !is_blank(t)
}

/// A pin's designator: its `NUMBER` attribute when given, else its
/// position in the part counted from 1.
pub open spec fn spec_pin_designator(number: Option<Seq<char>>, pin_index: nat) -> Seq<char> {
    if given(number) {
        number->0
    } else {
        decimal(pin_index + 1)
    }
}

/// A pin's name: its `NAME` attribute when given, else its designator.
pub open spec fn spec_pin_name(name: Option<Seq<char>>, designator: Seq<char>) -> Seq<char> {
    if given(name) {
        name->0
    } else {
        designator
    }
}

/// The text and visibility of a pin's name and designator.
#[derive(Debug)]
pub struct PinLabels {
    pub designator: String,
    pub name: String,
    pub show_name: bool,
    pub show_designator: bool,
}

/// Labels a pin from its `NUMBER` and `NAME` attributes and the visibility
/// the symbol gives them: an attribute that is absent or blank falls back
/// (the designator on the pin's position, the name on the designator); the
/// name is shown, unless the symbol says otherwise, when it is not blank;
/// the designator is shown unless the symbol says otherwise.
pub fn pin_labels(
    number: Option<&str>,
    name: Option<&str>,
    number_visible: Option<bool>,
    name_visible: Option<bool>,
    pin_index: usize,
) -> (r: PinLabels)
    requires
        pin_index < u64::MAX,
    ensures
        r.designator@ == spec_pin_designator(
            match number {
                Some(t) => Some(t@),
                None => None,
            },
            pin_index as nat,
        ),
        r.name@ == spec_pin_name(
            match name {
                Some(t) => Some(t@),
                None => None,
            },
            r.designator@,
        ),
        r.show_name == (match name_visible {
            Some(b) => b,
            None => !is_blank(r.name@),
        }),
        r.show_designator == (match number_visible {
            Some(b) => b,
            None => true,
        }),
{
    let designator = match number {
        Some(t) if !is_blank_str(t) => String::from_str(t),
        _ => u64_to_string((pin_index as u64) + 1),
    };
    let pin_name = match name {
        Some(t) if !is_blank_str(t) => String::from_str(t),
        _ => designator.clone(),
    };
    let show_name = match name_visible {
        Some(b) => b,
        None => !is_blank_str(pin_name.as_str()),
    };
    let show_designator = match number_visible {
        Some(b) => b,
        None => true,
    };
    PinLabels { designator, name: pin_name, show_name, show_designator }
}

/// How a part's body rectangle is drawn: filled with the plain fill when
/// the part has no polyline or arc; otherwise left transparent, with a
/// white fill, so that those graphics show.
pub fn body_style(complex: bool) -> (r: (i32, bool, bool))
    ensures
        r.0 == (if complex {
            WHITE_BGR
        } else {
            FILL_BGR
        }),
        r.1 == !complex,
        r.2 == complex,
{
    if complex {
        (WHITE_BGR, false, true)
    } else {
        (FILL_BGR, true, false)
    }
}

/// Whether a symbol's pins are laid out on a body of their own: when no
/// part declares itself and nothing is drawn.
pub fn uses_pin_layout(has_graphics: bool, has_part_rows: bool) -> (r: bool)
    ensures
        r == (!has_graphics && !has_part_rows),
{
    !has_graphics && !has_part_rows
}

/// How many rows `count` laid-out pins take: the left side's share, and at
/// least one.
pub fn layout_rows(count: usize) -> (r: usize)
    ensures
        r == (if count == 0 {
            1
        } else {
            (count + 1) / 2
        }),
{
    if count == 0 {
        1
    } else {
        count / 2 + count % 2
    }
}

/// Where pin `index` of `count` goes when pins are laid out: the first
/// half (rounded up) down the left side, the rest down the right side, one
/// row each from the top. Returns the row and whether the side is the left.
pub fn layout_slot(index: usize, count: usize) -> (r: (usize, bool))
    requires
        index < count,
    ensures
        ({
            let left = (count + 1) / 2;
            if index < left {
                r == (index, true)
            } else {
                r == ((index - left) as usize, false)
            }
        }),
        r.0 < (count + 1) / 2,
{
    let left = count / 2 + count % 2;
    if index < left {
        (index, true)
    } else {
        (index - left, false)
    }
}

} // verus!
