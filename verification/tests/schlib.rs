use npnp::altium::{
    dxp_i16, normalize_component_name, section_key_from_name, stable_unique_id, BinaryWriter,
    Params,
};
use npnp::schlib::{
    component_data_bytes, file_header_bytes, pin_conglomerate, schlib_entries, schlib_weight,
    section_keys_bytes, storage_bytes, Arc, Component, CoordPoint, Ellipse, Label, Pin, Polyline,
    Rectangle, SchLibEntry,
};
use npnp::schlib::{
    body_style, layout_rows, layout_slot, pin_labels, uses_pin_layout, FILL_BGR, WHITE_BGR,
};
use npnp::svg::{normalize_text_value, tokenize_svg_path};

fn blocks(bytes: &[u8]) -> Vec<(u8, Vec<u8>)> {
    let mut out = Vec::new();
    let mut i = 0;
    while i < bytes.len() {
        let n = bytes[i] as usize | (bytes[i + 1] as usize) << 8 | (bytes[i + 2] as usize) << 16;
        let flag = bytes[i + 3];
        out.push((flag, bytes[i + 4..i + 4 + n].to_vec()));
        i += 4 + n;
    }
    assert_eq!(i, bytes.len());
    out
}

fn text_of(payload: &[u8]) -> String {
    assert_eq!(*payload.last().unwrap(), 0);
    String::from_utf8(payload[..payload.len() - 1].to_vec()).unwrap()
}

fn pin(designator: &str, name: &str) -> Pin {
    Pin {
        designator: designator.to_string(),
        name: name.to_string(),
        location: CoordPoint { x_raw: 1_000_000, y_raw: -2_050_000 },
        length_raw: 2_000_000,
        orientation: 2,
        show_name: true,
        show_designator: false,
        color_bgr: 128,
        owner_part_id: 1,
        owner_part_display_mode: 0,
    }
}

fn component(name: &str) -> Component {
    Component {
        name: name.to_string(),
        description: "Generated from EasyEDA symbol".to_string(),
        part_count: 1,
        pins: vec![pin("1", "VCC"), pin("2", "GND")],
        rectangles: vec![Rectangle {
            corner1: CoordPoint { x_raw: 0, y_raw: 150_000 },
            corner2: CoordPoint { x_raw: -250_000, y_raw: 0 },
            color_bgr: 0,
            fill_color_bgr: 11599871,
            is_filled: true,
            is_transparent: false,
            line_width_index: 1,
            owner_part_id: 1,
        }],
        polylines: vec![Polyline {
            points: vec![CoordPoint { x_raw: 0, y_raw: 0 }, CoordPoint { x_raw: 100_000, y_raw: 5 }],
            color_bgr: 255,
            line_width_index: 1,
            owner_part_id: 2,
        }],
        arcs: vec![Arc {
            center: CoordPoint { x_raw: 0, y_raw: 0 },
            radius_raw: 300_000,
            start_angle: None,
            end_angle: "90.000".to_string(),
            color_bgr: 255,
            line_width_index: 1,
            owner_part_id: 1,
        }],
        ellipses: vec![Ellipse {
            center: CoordPoint { x_raw: 0, y_raw: 0 },
            radius_x_raw: 100_000,
            radius_y_raw: 100_000,
            color_bgr: 255,
            fill_color_bgr: 16777215,
            is_filled: false,
            is_transparent: true,
            line_width_index: 1,
            owner_part_id: 1,
        }],
        labels: vec![Label {
            text: "U1".to_string(),
            location: CoordPoint { x_raw: 0, y_raw: 0 },
            orientation: 1,
            color_bgr: 255,
            owner_part_id: 1,
        }],
    }
}

#[test]
fn params_render_as_bar_separated_pairs() {
    let mut p = Params::new();
    p.push("RECORD", "1");
    p.push_bool("ISSOLID", true);
    p.push_bool("TRANSPARENT", false);
    p.push_non_zero("COLOR", 0);
    p.push_non_zero("ORIENTATION", 3);
    p.push_coord("LOCATION.X", 1_250_000);
    p.push_coord("LOCATION.Y", -50_000);
    p.push_coord("CORNER.X", 0);
    assert_eq!(
        p.to_text(),
        "|RECORD=1|ISSOLID=T|ORIENTATION=3|LOCATION.X=12|LOCATION.X_FRAC=50000|LOCATION.Y_FRAC=-50000"
    );
}

#[test]
fn writer_encodes_little_endian_and_blocks() {
    let mut w = BinaryWriter::new();
    w.write_i16(-2);
    w.write_i32(0x01020304);
    w.write_block(1, &[9, 8]);
    w.write_pascal_short_string("ab");
    let mut p = Params::new();
    p.push("A", "b");
    w.write_cstring_param_block(&p);
    assert_eq!(
        w.into_inner(),
        vec![
            0xFE, 0xFF, 4, 3, 2, 1, 2, 0, 0, 1, 9, 8, 2, b'a', b'b', 5, 0, 0, 0, b'|', b'A', b'=',
            b'b', 0
        ]
    );
    let mut w = BinaryWriter::new();
    w.write_pascal_short_string(&"x".repeat(300));
    let bytes = w.into_inner();
    assert_eq!(bytes.len(), 256);
    assert_eq!(bytes[0], 255);
}

#[test]
fn unique_ids_are_eight_stable_letters() {
    let a = stable_unique_id("LM358", "COMP");
    let b = stable_unique_id("LM358", "COMP");
    let c = stable_unique_id("LM358", "DESIGNATOR");
    assert_eq!(a, b);
    assert_ne!(a, c);
    assert_eq!(a.len(), 8);
    assert!(a.chars().all(|ch| ch.is_ascii_uppercase()));
}

#[test]
fn section_keys_and_names() {
    assert_eq!(section_key_from_name("A/B"), "A_B");
    assert_eq!(section_key_from_name(&"N".repeat(40)), "N".repeat(31));
    assert_eq!(normalize_component_name("  LM358 "), "LM358");
    assert_eq!(normalize_component_name("   "), "Component");
    assert_eq!(dxp_i16(250_000), 2);
    assert_eq!(dxp_i16(-250_000), -2);
    assert_eq!(dxp_i16(i64::MAX), 32767);
    assert_eq!(dxp_i16(i64::MIN), -32768);
}

#[test]
fn pin_flags_pack_orientation_and_visibility() {
    let mut p = pin("1", "A");
    assert_eq!(pin_conglomerate(&p), 2 | 8);
    p.orientation = 7;
    p.show_name = false;
    p.show_designator = true;
    assert_eq!(pin_conglomerate(&p), 3 | 16);
}

#[test]
fn component_stream_holds_each_record_in_order() {
    let c = component("LM358");
    let data = component_data_bytes(&c);
    let records = blocks(&data);
    assert_eq!(records.len(), schlib_weight(&c));
    let flags: Vec<u8> = records.iter().map(|r| r.0).collect();
    assert_eq!(flags, vec![0, 0, 0, 0, 0, 0, 1, 1, 0, 0, 0]);
    let header = text_of(&records[0].1);
    assert!(header.starts_with(
        "|RECORD=1|LIBREFERENCE=LM358|COMPONENTDESCRIPTION=Generated from EasyEDA symbol|PARTCOUNT=2|"
    ));
    assert!(header.ends_with("|DESIGNITEMID=LM358|ALLPINCOUNT=2"));
    let rect = text_of(&records[1].1);
    assert!(rect.starts_with(
        "|RECORD=14|ISNOTACCESIBLE=T|OWNERPARTID=1|LOCATION.Y=1|LOCATION.Y_FRAC=50000|CORNER.X=-2|CORNER.X_FRAC=-50000|LINEWIDTH=1|AREACOLOR=11599871|ISSOLID=T|UNIQUEID="
    ));
    let label = text_of(&records[2].1);
    assert!(label.starts_with("|RECORD=4|ISNOTACCESIBLE=T|OWNERPARTID=1|FONTID=1|TEXT=U1|COLOR=255|ORIENTATION=1|UNIQUEID="));
    let poly = text_of(&records[3].1);
    assert!(poly.starts_with(
        "|RECORD=6|ISNOTACCESIBLE=T|OWNERPARTID=2|LINEWIDTH=1|COLOR=255|LOCATIONCOUNT=2|X2=1|Y2_FRAC=5|UNIQUEID="
    ));
    let arc = text_of(&records[4].1);
    assert!(arc.starts_with("|RECORD=12|ISNOTACCESIBLE=T|OWNERPARTID=1|RADIUS=3|LINEWIDTH=1|ENDANGLE=90.000|COLOR=255|UNIQUEID="));
    let ellipse = text_of(&records[5].1);
    assert!(ellipse.starts_with("|RECORD=8|ISNOTACCESIBLE=T|OWNERPARTID=1|RADIUS=1|SECONDARYRADIUS=1|LINEWIDTH=1|COLOR=255|AREACOLOR=16777215|TRANSPARENT=T|UNIQUEID="));
    let pin_body = &records[6].1;
    assert_eq!(&pin_body[..4], &[2, 0, 0, 0]);
    assert_eq!(pin_body[15], 2 | 8);
    assert_eq!(&pin_body[16..22], &[20, 0, 10, 0, 0xEC, 0xFF]);
    assert_eq!(&pin_body[26..30], &[3, b'V', b'C', b'C']);
    assert!(text_of(&records[8].1).contains("|NAME=Designator|"));
    assert!(text_of(&records[9].1).contains("|NAME=Comment|"));
    assert_eq!(text_of(&records[10].1), "|RECORD=44");
}

#[test]
fn file_header_states_weight_and_part_count() {
    let c = component("LM358");
    let bytes = file_header_bytes(&c);
    let head = blocks(&bytes[..bytes.len() - 4 - 4 - 6])[0].1.clone();
    let text = text_of(&head);
    assert!(text.starts_with(
        "|HEADER=Protel for Windows - Schematic Library Editor Binary File Version 5.0|WEIGHT=11|"
    ));
    assert!(text.ends_with("|LIBREF0=LM358|COMPDESCR0=Generated from EasyEDA symbol|PARTCOUNT0=2"));
    let tail = &bytes[bytes.len() - 14..];
    assert_eq!(tail, &[1, 0, 0, 0, 6, 0, 0, 0, 5, b'L', b'M', b'3', b'5', b'8']);
}

#[test]
fn library_entries_follow_the_section_key() {
    let c = component("A/B");
    let entries = schlib_entries(&c);
    let names: Vec<String> = entries
        .iter()
        .map(|e| match e {
            SchLibEntry::Storage(p) => p.clone(),
            SchLibEntry::Stream(p, _) => p.clone(),
        })
        .collect();
    assert_eq!(names, vec!["/FileHeader", "/SectionKeys", "/A_B/", "/A_B/Data", "/Storage"]);
    if let SchLibEntry::Stream(_, bytes) = &entries[1] {
        assert_eq!(bytes, &section_keys_bytes("A/B", "A_B"));
    }
    if let SchLibEntry::Stream(_, bytes) = &entries[4] {
        assert_eq!(bytes, &storage_bytes());
        assert_eq!(text_of(&blocks(bytes)[0].1), "|HEADER=Icon storage");
    }
    let c = component("LM358");
    assert_eq!(schlib_entries(&c).len(), 4);
}

#[test]
fn label_text_whitespace_is_normalised() {
    assert_eq!(normalize_text_value("  a \t b\n\nc  "), "a b c");
    assert_eq!(normalize_text_value(" \u{3000} "), "");
}

#[test]
fn svg_paths_split_into_commands_and_numbers() {
    assert_eq!(
        tokenize_svg_path("M10,20L-5-6.5 h3e-2z"),
        vec!["M", "10", "20", "L", "-5", "-6.5", "h", "3", "e", "-2", "z"]
    );
    assert_eq!(tokenize_svg_path("  1+2 "), vec!["1", "+2"]);
    assert!(tokenize_svg_path(" , ").is_empty());
}

#[test]
fn normalised_text_keeps_words_and_settles() {
    for text in ["  a \t b\n\nc  ", "one", "", "x\u{3000}\u{a0}y  z"] {
        let r = normalize_text_value(text);
        let before: Vec<&str> = text.split_whitespace().collect();
        let after: Vec<&str> = r.split_whitespace().collect();
        assert_eq!(before, after);
        assert_eq!(normalize_text_value(&r), r);
        assert!(!r.starts_with(' ') && !r.ends_with(' ') && !r.contains("  "));
    }
    assert_eq!(normalize_text_value("x\u{3000}\u{a0}y  z"), "x y z");
}

#[test]
fn pin_labels_fall_back_on_position_and_designator() {
    let l = pin_labels(Some("7"), Some("VCC"), None, None, 0);
    assert_eq!((l.designator.as_str(), l.name.as_str()), ("7", "VCC"));
    assert!(l.show_name && l.show_designator);
    let l = pin_labels(Some("  "), None, None, None, 4);
    assert_eq!((l.designator.as_str(), l.name.as_str()), ("5", "5"));
    assert!(l.show_name && l.show_designator);
    let l = pin_labels(None, Some("\t"), Some(false), Some(true), 9);
    assert_eq!((l.designator.as_str(), l.name.as_str()), ("10", "10"));
    assert!(l.show_name && !l.show_designator);
}

#[test]
fn body_style_and_pin_layout() {
    assert_eq!(body_style(false), (FILL_BGR, true, false));
    assert_eq!(body_style(true), (WHITE_BGR, false, true));
    assert_eq!(FILL_BGR, 11599871);
    assert_eq!(WHITE_BGR, 0xFFFFFF);
    assert!(uses_pin_layout(false, false));
    assert!(!uses_pin_layout(true, false));
    assert!(!uses_pin_layout(false, true));
    assert_eq!(layout_rows(0), 1);
    assert_eq!(layout_rows(5), 3);
    assert_eq!(layout_rows(6), 3);
    let slots: Vec<(usize, bool)> = (0..5).map(|i| layout_slot(i, 5)).collect();
    assert_eq!(slots, vec![(0, true), (1, true), (2, true), (0, false), (1, false)]);
}
