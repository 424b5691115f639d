use pagestore::json::{json_eq, JsonValue};
use pagestore::models::{
    ApiResponse, Component, ComponentElement, Content, PageContent, PageSettings, Property,
};
use pagestore::codec::{comp_to_json, elements_to_json};
use pagestore::store::{
    delete_component, get_components, get_page, init_db, save_component, save_page, ComponentRow,
    Store,
};

fn fresh_store() -> Store {
    Store { page: None, components: Vec::new() }
}

fn default_settings_value() -> PageSettings {
    PageSettings {
        responsive: true,
        width: 1200,
        height: 800,
        max_width: "none".to_string(),
        bg_color: "#ffffff".to_string(),
    }
}

fn sample_property() -> Property {
    Property {
        name: "color".to_string(),
        value: JsonValue::Str("red".to_string()),
        label: "Color".to_string(),
        property_type: "color".to_string(),
        category: "decoration".to_string(),
        options: Some(vec!["red".to_string(), "blue".to_string()]),
        required: Some(true),
        description: None,
    }
}

fn sample_component(id: i64, name: &str) -> Component {
    Component {
        id,
        name: name.to_string(),
        icon: "box".to_string(),
        category: "container".to_string(),
        description: Some("a block".to_string()),
        properties: vec![sample_property()],
        can_contain_content: true,
        default_content: vec![Content::Text { content: "hello".to_string() }],
        tags: Some(vec!["layout".to_string()]),
    }
}

fn sample_element(id: i64) -> ComponentElement {
    ComponentElement {
        id,
        properties: vec![sample_property()],
        content: vec![Content::Text { content: "inner".to_string() }],
        element_type: sample_component(id + 100, "Inner"),
    }
}

fn sample_page(marker: i64) -> PageContent {
    PageContent {
        elements: vec![sample_element(marker)],
        settings: PageSettings {
            responsive: false,
            width: 640,
            height: 480,
            max_width: "900px".to_string(),
            bg_color: "#000000".to_string(),
        },
    }
}

fn elements_equal(a: &Vec<ComponentElement>, b: &Vec<ComponentElement>) -> bool {
    json_eq(&elements_to_json(a), &elements_to_json(b))
}

fn components_equal(a: &Component, b: &Component) -> bool {
    json_eq(&comp_to_json(a), &comp_to_json(b))
}

#[test]
fn init_creates_default_page() {
    let mut store = fresh_store();
    init_db(&mut store);
    assert!(store.page.is_some());
    let resp = get_page(&store);
    assert!(resp.success);
    assert!(resp.error.is_none());
    let page = resp.data.expect("page data");
    assert_eq!(page.settings, default_settings_value());
    assert_eq!(page.elements.len(), 0);
}

#[test]
fn init_twice_is_idempotent() {
    let mut store = fresh_store();
    init_db(&mut store);
    let custom = sample_page(1);
    let saved = save_page(&mut store, custom);
    assert!(saved.success);
    init_db(&mut store);
    let resp = get_page(&store);
    assert!(resp.success);
    let page = resp.data.expect("page data");
    assert_eq!(page.settings, sample_page(1).settings);
    assert!(elements_equal(&page.elements, &sample_page(1).elements));
}

#[test]
fn save_then_get_page_round_trips() {
    let mut store = fresh_store();
    init_db(&mut store);
    let page = sample_page(42);
    let saved = save_page(&mut store, page);
    assert!(saved.success);
    assert!(saved.error.is_none());
    let echoed = saved.data.expect("echoed page");
    assert!(elements_equal(&echoed.elements, &sample_page(42).elements));
    let resp = get_page(&store);
    assert!(resp.success);
    let got = resp.data.expect("page data");
    assert!(elements_equal(&got.elements, &sample_page(42).elements));
    assert_eq!(got.settings, sample_page(42).settings);
}

#[test]
fn save_page_without_row_fails() {
    let mut store = fresh_store();
    let resp = save_page(&mut store, sample_page(1));
    assert!(!resp.success);
    assert!(resp.data.is_none());
    assert!(resp.error.is_some());
    assert!(store.page.is_none());
}

#[test]
fn get_page_without_row_fails() {
    let store = fresh_store();
    let resp = get_page(&store);
    assert!(!resp.success);
    assert!(resp.data.is_none());
    assert!(resp.error.is_some());
}

#[test]
fn get_page_with_malformed_columns_fails() {
    let mut store = fresh_store();
    init_db(&mut store);
    let row = store.page.take().expect("row");
    store.page = Some(pagestore::store::PageRow {
        elements: JsonValue::Null,
        settings: row.settings,
    });
    let resp = get_page(&store);
    assert!(!resp.success);
    assert!(resp.data.is_none());
    assert!(resp.error.is_some());
}

#[test]
fn upsert_inserts_then_updates_in_place() {
    let mut store = fresh_store();
    let first = save_component(&mut store, sample_component(7, "Button"), 100);
    assert!(first.success);
    assert!(components_equal(&first.data.expect("echo"), &sample_component(7, "Button")));
    assert_eq!(store.components.len(), 1);
    assert_eq!(store.components[0].created_at, 100);
    assert_eq!(store.components[0].updated_at, 100);

    let second = save_component(&mut store, sample_component(7, "FancyButton"), 250);
    assert!(second.success);
    assert_eq!(store.components.len(), 1);
    assert_eq!(store.components[0].name, "FancyButton");
    assert_eq!(store.components[0].created_at, 100);
    assert_eq!(store.components[0].updated_at, 250);
}

#[test]
fn listing_is_ordered_by_name() {
    let mut store = fresh_store();
    save_component(&mut store, sample_component(1, "Banana"), 10);
    save_component(&mut store, sample_component(2, "Apple"), 11);
    save_component(&mut store, sample_component(3, "Cherry"), 12);
    let resp = get_components(&store);
    assert!(resp.success);
    let items = resp.data.expect("components");
    let names: Vec<String> = items.iter().map(|c| c.name.clone()).collect();
    assert_eq!(names, vec!["Apple".to_string(), "Banana".to_string(), "Cherry".to_string()]);
}

#[test]
fn listing_skips_malformed_rows() {
    let mut store = fresh_store();
    save_component(&mut store, sample_component(1, "Good"), 10);
    store.components.push(ComponentRow {
        id: 2,
        name: "Broken".to_string(),
        icon: "x".to_string(),
        category: "custom".to_string(),
        description: None,
        properties: JsonValue::Str("not an array".to_string()),
        can_contain_content: false,
        default_content: JsonValue::Arr(Vec::new()),
        tags: JsonValue::Null,
        created_at: 11,
        updated_at: 11,
    });
    let resp = get_components(&store);
    assert!(resp.success);
    assert!(resp.error.is_none());
    let items = resp.data.expect("components");
    assert_eq!(items.len(), 1);
    assert_eq!(items[0].name, "Good");
}

#[test]
fn delete_of_absent_id_is_a_successful_noop() {
    let mut store = fresh_store();
    save_component(&mut store, sample_component(5, "Keep"), 10);
    let resp: ApiResponse<()> = delete_component(&mut store, 999);
    assert!(resp.success);
    assert!(resp.error.is_none());
    assert_eq!(resp.data, Some(()));
    assert_eq!(store.components.len(), 1);
    assert_eq!(store.components[0].name, "Keep");
}

#[test]
fn delete_removes_the_matching_row() {
    let mut store = fresh_store();
    save_component(&mut store, sample_component(5, "Gone"), 10);
    save_component(&mut store, sample_component(6, "Stays"), 11);
    let resp = delete_component(&mut store, 5);
    assert!(resp.success);
    assert_eq!(store.components.len(), 1);
    assert_eq!(store.components[0].name, "Stays");
}

#[test]
fn racing_page_saves_leave_the_last_write() {
    let mut store = fresh_store();
    init_db(&mut store);
    let first = save_page(&mut store, sample_page(1));
    let second = save_page(&mut store, sample_page(2));
    assert!(first.success);
    assert!(second.success);
    let resp = get_page(&store);
    assert!(resp.success);
    let got = resp.data.expect("page data");
    assert!(elements_equal(&got.elements, &sample_page(2).elements));
    assert!(!elements_equal(&got.elements, &sample_page(1).elements));
}
