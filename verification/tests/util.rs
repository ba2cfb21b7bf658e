use npnp::json::{Number, Value};
use npnp::util::{nested_string, nested_value, sanitize_filename, split_obj_and_mtl, value_to_string};

#[test]
fn sanitizes_windows_unsafe_characters() {
    assert_eq!(sanitize_filename("A<B>:C*.step"), "A_B__C_.step");
    assert_eq!(sanitize_filename(" .. "), "component");
}

#[test]
fn splits_embedded_mtl_sections() {
    let input = "newmtl body\nKd 0.8 0.8 0.8\nv 0 0 0\nf 1 1 1\n";
    let (obj_text, mtl_text) = split_obj_and_mtl(input);
    assert!(obj_text.contains("v 0 0 0"));
    assert!(mtl_text.contains("newmtl body"));
    assert!(mtl_text.contains("Kd 0.8 0.8 0.8"));
}

#[test]
fn split_keeps_every_line_and_exact_sections() {
    let input = "o x\r\nnewmtl a\nKd 1 1 1\nusemtl a\nv 1 2 3\nnewmtl b\n  Ns 10";
    let (obj_text, mtl_text) = split_obj_and_mtl(input);
    assert_eq!(
        obj_text,
        "o x\nnewmtl a\nKd 1 1 1\nusemtl a\nv 1 2 3\nnewmtl b\n  Ns 10\n"
    );
    assert_eq!(mtl_text, "newmtl a\nKd 1 1 1\nnewmtl b\n  Ns 10\n");
    let (obj_text, mtl_text) = split_obj_and_mtl("");
    assert_eq!(obj_text, "\n");
    assert_eq!(mtl_text, "");
}

#[test]
fn sanitize_trims_dots_spaces_and_whitespace() {
    assert_eq!(sanitize_filename("..name. "), "name");
    assert_eq!(sanitize_filename("\t.a"), "_.a");
    assert_eq!(sanitize_filename("\u{2003}.a"), ".a");
    assert_eq!(sanitize_filename("a\u{7}b"), "a_b");
    assert_eq!(sanitize_filename(""), "component");
}

#[test]
fn nested_lookups() {
    let v = Value::Object(vec![
        (
            "a".to_string(),
            Value::Object(vec![
                ("b".to_string(), Value::Number(Number { text: "1.5".to_string(), as_i64: None })),
                ("c".to_string(), Value::Bool(false)),
                ("d".to_string(), Value::Null),
            ]),
        ),
    ]);
    assert_eq!(nested_string(&v, &["a", "b"]).as_deref(), Some("1.5"));
    assert_eq!(nested_string(&v, &["a", "c"]).as_deref(), Some("false"));
    assert_eq!(nested_string(&v, &["a", "d"]), None);
    assert_eq!(nested_string(&v, &["a", "x"]), None);
    assert!(nested_value(&v, &[]).is_some());
    assert_eq!(value_to_string(&Value::Bool(true)).as_deref(), Some("true"));
    assert_eq!(value_to_string(&Value::Array(vec![])), None);
}

#[test]
fn sanitized_names_settle_and_have_clean_ends() {
    for name in [" ..a<b>. ", "A<B>:C*.step", "..", "x\ty.", "  report. v2 .. "] {
        let r = sanitize_filename(name);
        assert_eq!(sanitize_filename(&r), r);
        assert!(!r.starts_with(' ') && !r.starts_with('.'));
        assert!(!r.ends_with(' ') && !r.ends_with('.'));
    }
    assert_eq!(sanitize_filename(" ..a<b>. "), "a_b_");
    assert_eq!(sanitize_filename("x\ty."), "x_y");
}
