use npnp::json::Value;
use npnp::SearchItem;

fn text(s: &str) -> Value {
    Value::String(s.to_string())
}

fn object(entries: Vec<(&str, Value)>) -> Value {
    Value::Object(entries.into_iter().map(|(k, v)| (k.to_string(), v)).collect())
}

fn item_with(display_title: &str, title: &str, raw: Value) -> SearchItem {
    SearchItem {
        index: 1,
        display_title: display_title.to_string(),
        title: title.to_string(),
        manufacturer: String::new(),
        model_uuid: None,
        raw,
    }
}

#[test]
fn prefers_product_code_for_lcsc_id() {
    let item = item_with(
        "TYPE-C",
        "",
        object(vec![
            ("product_code", text("C2765186")),
            ("attributes", object(vec![("Supplier Part", text("C123"))])),
        ]),
    );

    assert_eq!(item.lcsc_id().as_deref(), Some("C2765186"));
}

#[test]
fn falls_back_to_supplier_part_for_lcsc_id() {
    let item = item_with(
        "TYPE-C",
        "",
        object(vec![(
            "attributes",
            object(vec![("Supplier Part", text("C2765186"))]),
        )]),
    );

    assert_eq!(item.lcsc_id().as_deref(), Some("C2765186"));
}

#[test]
fn blank_product_code_falls_back_and_blank_ids_are_none() {
    let item = item_with(
        "X",
        "",
        object(vec![
            ("product_code", text("  ")),
            ("attributes", object(vec![("Supplier Part", text("C9"))])),
        ]),
    );
    assert_eq!(item.lcsc_id().as_deref(), Some("C9"));
    let item = item_with("X", "", object(vec![("product_code", text(" "))]));
    assert_eq!(item.lcsc_id(), None);
    let item = item_with("X", "", Value::Null);
    assert_eq!(item.lcsc_id(), None);
}

#[test]
fn display_name_falls_back_to_title_then_component() {
    assert_eq!(item_with("D", "T", Value::Null).display_name(), "D");
    assert_eq!(item_with("", "T", Value::Null).display_name(), "T");
    assert_eq!(item_with("", "", Value::Null).display_name(), "component");
}

#[test]
fn file_names_are_sanitised() {
    let item = item_with(
        "A/B",
        "",
        object(vec![("footprint", object(vec![("display_title", text("SOT-23:3"))]))]),
    );
    assert_eq!(item.choose_step_filename(), "SOT-23_3.step");
    let item = item_with("A/B", "", Value::Null);
    assert_eq!(item.choose_step_filename(), "A_B.step");
    assert_eq!(item.choose_obj_basename(), "A_B");
    let item = item_with("A", "T?", Value::Null);
    assert_eq!(item.choose_obj_basename(), "T_");
}

#[test]
fn symbol_and_footprint_uuids() {
    let item = item_with(
        "A",
        "",
        object(vec![
            ("symbol", object(vec![("uuid", text("s1"))])),
            (
                "attributes",
                object(vec![("Symbol", text("s2")), ("Footprint", text("f2"))]),
            ),
        ]),
    );
    assert_eq!(item.symbol_uuid().as_deref(), Some("s1"));
    assert_eq!(item.footprint_uuid().as_deref(), Some("f2"));
    assert_eq!(item_with("A", "", Value::Null).symbol_uuid(), None);
}
