use pagestore::codec::{
    comp_to_json, json_to_comp, json_to_settings, opt_strs_to_json, props_to_json, settings_to_json,
};
use pagestore::json::{json_clone, json_eq, JsonValue};
use pagestore::models::{Component, Content, PageSettings, Property};

fn settings_value() -> PageSettings {
    PageSettings {
        responsive: true,
        width: 1024,
        height: 768,
        max_width: "80%".to_string(),
        bg_color: "#abcdef".to_string(),
    }
}

fn nested_component() -> Component {
    Component {
        id: 31,
        name: "Card".to_string(),
        icon: "card".to_string(),
        category: "container".to_string(),
        description: None,
        properties: vec![Property {
            name: "padding".to_string(),
            value: JsonValue::Int(12),
            label: "Padding".to_string(),
            property_type: "number".to_string(),
            category: "layout".to_string(),
            options: None,
            required: None,
            description: Some("inner spacing".to_string()),
        }],
        can_contain_content: true,
        default_content: vec![Content::Text { content: "body".to_string() }],
        tags: None,
    }
}

#[test]
fn settings_encode_then_decode_is_identity() {
    let s = settings_value();
    let encoded = settings_to_json(&s);
    let decoded = json_to_settings(&encoded).expect("settings parse");
    assert_eq!(decoded, settings_value());
}

#[test]
fn settings_decode_rejects_wrong_shapes() {
    assert!(json_to_settings(&JsonValue::Null).is_none());
    assert!(json_to_settings(&JsonValue::Obj(Vec::new())).is_none());
    let mut fields: Vec<(String, JsonValue)> = Vec::new();
    fields.push(("responsive".to_string(), JsonValue::Bool(true)));
    fields.push(("width".to_string(), JsonValue::Str("wide".to_string())));
    fields.push(("height".to_string(), JsonValue::Int(1)));
    fields.push(("maxWidth".to_string(), JsonValue::Str("none".to_string())));
    fields.push(("bgColor".to_string(), JsonValue::Str("#fff".to_string())));
    assert!(json_to_settings(&JsonValue::Obj(fields)).is_none());
}

#[test]
fn settings_decode_ignores_key_order() {
    let mut fields: Vec<(String, JsonValue)> = Vec::new();
    fields.push(("bgColor".to_string(), JsonValue::Str("#abcdef".to_string())));
    fields.push(("height".to_string(), JsonValue::Int(768)));
    fields.push(("maxWidth".to_string(), JsonValue::Str("80%".to_string())));
    fields.push(("responsive".to_string(), JsonValue::Bool(true)));
    fields.push(("width".to_string(), JsonValue::Int(1024)));
    let decoded = json_to_settings(&JsonValue::Obj(fields)).expect("settings parse");
    assert_eq!(decoded, settings_value());
}

#[test]
fn component_encode_then_decode_is_identity() {
    let c = nested_component();
    let encoded = comp_to_json(&c);
    let decoded = json_to_comp(&encoded).expect("component parse");
    assert!(json_eq(&comp_to_json(&decoded), &comp_to_json(&nested_component())));
    assert_eq!(decoded.id, 31);
    assert_eq!(decoded.name, "Card");
    assert_eq!(decoded.properties.len(), 1);
}

#[test]
fn properties_encode_is_not_the_identity_on_input() {
    let props = vec![Property {
        name: "x".to_string(),
        value: JsonValue::Null,
        label: "X".to_string(),
        property_type: "string".to_string(),
        category: "basic".to_string(),
        options: None,
        required: None,
        description: None,
    }];
    let encoded = props_to_json(&props);
    match &encoded {
        JsonValue::Arr(items) => match &items[0] {
            JsonValue::Obj(fields) => {
                assert_eq!(fields.len(), 8);
                assert_eq!(fields[0].0, "name");
                assert_eq!(fields[3].0, "type");
            }
            _ => panic!("expected an object entry"),
        },
        _ => panic!("expected an array"),
    }
}

#[test]
fn tags_encode_null_and_arrays() {
    let none: Option<Vec<String>> = None;
    assert!(json_eq(&opt_strs_to_json(&none), &JsonValue::Null));
    let some = Some(vec!["a".to_string(), "b".to_string()]);
    let mut expected_items: Vec<JsonValue> = Vec::new();
    expected_items.push(JsonValue::Str("a".to_string()));
    expected_items.push(JsonValue::Str("b".to_string()));
    assert!(json_eq(&opt_strs_to_json(&some), &JsonValue::Arr(expected_items)));
}

#[test]
fn json_clone_copies_deeply_and_json_eq_sees_differences() {
    let mut fields: Vec<(String, JsonValue)> = Vec::new();
    fields.push(("k".to_string(), JsonValue::Num("2.5".to_string())));
    let mut arr: Vec<JsonValue> = Vec::new();
    arr.push(JsonValue::Obj(fields));
    arr.push(JsonValue::Bool(false));
    let v = JsonValue::Arr(arr);
    let copy = json_clone(&v);
    assert!(json_eq(&copy, &v));
    assert!(!json_eq(&copy, &JsonValue::Bool(false)));
    assert!(!json_eq(&JsonValue::Int(1), &JsonValue::Int(2)));
    assert!(!json_eq(&JsonValue::Num("1".to_string()), &JsonValue::Int(1)));
}
