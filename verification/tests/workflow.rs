use npnp::json::Value;
use npnp::workflow::{
    add_model_candidate, export_component_name, initial_model_candidates, library_file_name,
    obj_file_text,
};
use npnp::{AppError, SearchItem};

fn text(s: &str) -> Value {
    Value::String(s.to_string())
}

fn object(entries: Vec<(&str, Value)>) -> Value {
    Value::Object(entries.into_iter().map(|(k, v)| (k.to_string(), v)).collect())
}

fn item(display_title: &str, model_uuid: Option<&str>) -> SearchItem {
    SearchItem {
        index: 1,
        display_title: display_title.to_string(),
        title: String::new(),
        manufacturer: String::new(),
        model_uuid: model_uuid.map(|s| s.to_string()),
        raw: Value::Null,
    }
}

#[test]
fn export_name_prefers_display_name_unless_blank() {
    let data = object(vec![("result", object(vec![("display_title", text("From Payload"))]))]);
    assert_eq!(export_component_name(&item("Shown", None), &data), "Shown");
    assert_eq!(export_component_name(&item("  ", None), &data), "From Payload");
    let blank = object(vec![("result", object(vec![("display_title", text(" "))]))]);
    assert_eq!(export_component_name(&item("  ", None), &blank), "  ");
}

#[test]
fn model_candidates_are_distinct_ignoring_case() {
    let data = object(vec![(
        "result",
        object(vec![("model_3d", object(vec![("uri", text("ABC"))]))]),
    )]);
    let mut cs = initial_model_candidates(&data, &item("x", Some("abc")));
    assert_eq!(cs, vec!["ABC"]);
    add_model_candidate(&mut cs, "def".to_string());
    add_model_candidate(&mut cs, "DEF".to_string());
    assert_eq!(cs, vec!["ABC", "def"]);
    let cs = initial_model_candidates(&Value::Null, &item("x", Some("m1")));
    assert_eq!(cs, vec!["m1"]);
    let cs = initial_model_candidates(&Value::Null, &item("x", Some(" ")));
    assert!(cs.is_empty());
}

#[test]
fn obj_text_names_its_material_file() {
    assert_eq!(obj_file_text("part", "v 0 0 0\n"), "mtllib part.mtl\nv 0 0 0\n");
    assert_eq!(library_file_name("A:B", "SchLib"), "A_B.SchLib");
    assert_eq!(library_file_name("..", "PcbLib"), "component.PcbLib");
}

#[test]
fn error_messages() {
    assert_eq!(
        AppError::InvalidIndex { keyword: "C1".to_string(), index: 5, max: 3 }.message(),
        "invalid index 5. Valid range: 1..3 for keyword 'C1'."
    );
    assert_eq!(
        AppError::NoResults("xyz".to_string()).message(),
        "no results found for keyword: xyz"
    );
    assert_eq!(AppError::MissingModelUuid.message(), "selected component has no 3D model UUID");
    assert_eq!(
        AppError::MissingSymbolOrFootprint.message(),
        "selected component has no symbol/footprint uuid"
    );
    assert_eq!(AppError::Other("boom".to_string()).message(), "boom");
    assert_eq!(AppError::Io("gone".to_string()).message(), "io error: gone");
}
