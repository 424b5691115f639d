use vstd::prelude::*;

use crate::codec::{
    contents_jv, contents_to_json, elements_jv, elements_to_json, jv_to_contents, jv_to_elements,
    jv_to_opt_strs, jv_to_props, jv_to_settings, json_to_elements, json_to_settings,
    lemma_elements_roundtrip, lemma_settings_roundtrip, opt_strs_jv, opt_strs_to_json, props_jv,
    props_to_json, settings_jv, settings_to_json,
};
use crate::codec::{json_to_contents, json_to_opt_strs, json_to_props};
use crate::json::{jv_of, JsonValue, Jv};
use crate::text::{lemma_lex_le_total, lemma_lex_le_trans, lex_le, lex_le_strings};
use vstd::multiset::Multiset;
use crate::models::{ApiResponse, Component, ComponentV, PageContent, PageSettings, PageV, SettingsV};

verus! {

/// The singleton `page` table row: two JSON columns.
pub struct PageRow {
    pub elements: JsonValue,
    pub settings: JsonValue,
}

/// One `components` table row: typed columns plus three JSON columns and
/// the two server-assigned timestamps.
pub struct ComponentRow {
    pub id: i64,
    pub name: String,
    pub icon: String,
    pub category: String,
    pub description: Option<String>,
    pub properties: JsonValue,
    pub can_contain_content: bool,
    pub default_content: JsonValue,
    pub tags: JsonValue,
    pub created_at: i64,
    pub updated_at: i64,
}

/// The two tables the service persists.
pub struct Store {
    pub page: Option<PageRow>,
    pub components: Vec<ComponentRow>,
}

/// Mathematical model of the page row.
pub struct PageRowV {
    pub elements: Jv,
    pub settings: Jv,
}

/// Mathematical model of a component row.
pub struct RowV {
    pub id: i64,
    pub name: Seq<char>,
    pub icon: Seq<char>,
    pub category: Seq<char>,
    pub description: Option<Seq<char>>,
    pub properties: Jv,
    pub can_contain_content: bool,
    pub default_content: Jv,
    pub tags: Jv,
    pub created_at: i64,
    pub updated_at: i64,
}

/// Mathematical model of the whole store.
pub struct StoreV {
    pub page: Option<PageRowV>,
    pub components: Seq<RowV>,
}

impl DeepView for PageRow {
    type V = PageRowV;

    open spec fn deep_view(&self) -> PageRowV {
        PageRowV { elements: jv_of(self.elements), settings: jv_of(self.settings) }
    }
}

impl DeepView for ComponentRow {
    type V = RowV;

    open spec fn deep_view(&self) -> RowV {
        RowV {
            id: self.id,
            name: self.name@,
            icon: self.icon@,
            category: self.category@,
            description: self.description.deep_view(),
            properties: jv_of(self.properties),
            can_contain_content: self.can_contain_content,
            default_content: jv_of(self.default_content),
            tags: jv_of(self.tags),
            created_at: self.created_at,
            updated_at: self.updated_at,
        }
    }
}

impl DeepView for Store {
    type V = StoreV;

    open spec fn deep_view(&self) -> StoreV {
        StoreV { page: self.page.deep_view(), components: self.components.deep_view() }
    }
}

/// Component ids are unique: the upsert key of the catalog.
pub open spec fn store_wf(s: StoreV) -> bool {
    forall|i: int, k: int|
        0 <= i < k < s.components.len() ==> (#[trigger] s.components[i]).id != (
        #[trigger] s.components[k]).id
}

/// The settings the schema initializer seeds the page with.
pub open spec fn default_settings() -> SettingsV {
    SettingsV {
        responsive: true,
        width: 1200,
        height: 800,
        max_width: "none"@,
        bg_color: "#ffffff"@,
    }
}

/// What the schema initializer does: seed the singleton page row if and
/// only if it is absent; never touch the catalog.
pub open spec fn init_spec(s: StoreV) -> StoreV {
    if s.page is Some {
        s
    } else {
        StoreV {
            page: Option::Some(
                PageRowV {
                    elements: elements_jv(Seq::empty()),
                    settings: settings_jv(default_settings()),
                },
            ),
            components: s.components,
        }
    }
}

/// What a page save does: replace both columns of the singleton row in
/// full, if the row exists; touch nothing otherwise.
pub open spec fn save_page_spec(s: StoreV, p: PageV) -> StoreV {
    if s.page is Some {
        StoreV {
            page: Option::Some(
                PageRowV { elements: elements_jv(p.elements), settings: settings_jv(p.settings) },
            ),
            components: s.components,
        }
    } else {
        s
    }
}

/// A success envelope.
pub fn ok_response<T>(data: T) -> (r: ApiResponse<T>)
    ensures
        r.success,
        r.data == Option::Some(data),
        r.error is None,
{
    ApiResponse { success: true, data: Option::Some(data), error: Option::None }
}

/// A failure envelope carrying a human-readable message.
pub fn err_response<T>(error: String) -> (r: ApiResponse<T>)
    ensures
        !r.success,
        r.data is None,
        r.error == Option::Some(error),
{
    ApiResponse { success: false, data: Option::None, error: Option::Some(error) }
}

/// Ensure both tables exist and seed the default page row once.
pub fn init_db(store: &mut Store)
    ensures
        final(store).deep_view() == init_spec(old(store).deep_view()),
{
    if store.page.is_none() {
        let settings = PageSettings {
            responsive: true,
            width: 1200,
            height: 800,
            max_width: "none".to_owned(),
            bg_color: "#ffffff".to_owned(),
        };
        let empty_elements: Vec<crate::models::ComponentElement> = Vec::new();
        let elements_json = elements_to_json(&empty_elements);
        let settings_json = settings_to_json(&settings);
        proof {
            assert(settings.deep_view() == default_settings());
            assert(empty_elements.deep_view() =~= Seq::<crate::models::ElementV>::empty());
        }
        store.page = Option::Some(PageRow { elements: elements_json, settings: settings_json });
    }
}

/// Overwrite the singleton page row with a full replacement and echo the
/// saved page; report failure when the row is missing.
pub fn save_page(store: &mut Store, page: PageContent) -> (r: ApiResponse<PageContent>)
    ensures
        final(store).deep_view() == save_page_spec(old(store).deep_view(), page.deep_view()),
        old(store).page is Some ==> r.success && r.data == Option::Some(page) && r.error is None,
        old(store).page is None ==> !r.success && r.data is None && r.error is Some,
{
    if store.page.is_some() {
        let elements_json = elements_to_json(&page.elements);
        let settings_json = settings_to_json(&page.settings);
        store.page = Option::Some(PageRow { elements: elements_json, settings: settings_json });
        ok_response(page)
    } else {
        err_response("no rows returned by a query that expected to return at least one row".to_owned())
    }
}

/// Read the singleton page row back into a typed page; report failure when
/// the row is missing or either column does not match the page shape.
pub fn get_page(store: &Store) -> (r: ApiResponse<PageContent>)
    ensures
        match store.deep_view().page {
            Option::None => !r.success && r.data is None && r.error is Some,
            Option::Some(row) => {
                if jv_to_elements(row.elements) is Some && jv_to_settings(row.settings) is Some {
                    &&& r.success
                    &&& r.error is None
                    &&& r.data matches Option::Some(p) && p.deep_view() == (PageV {
                        elements: jv_to_elements(row.elements)->Some_0,
                        settings: jv_to_settings(row.settings)->Some_0,
                    })
                } else {
                    !r.success && r.data is None && r.error is Some
                }
            },
        },
{
    match &store.page {
        Option::None => err_response(
            "no rows returned by a query that expected to return at least one row".to_owned(),
        ),
        Option::Some(row) => {
            let elements = json_to_elements(&row.elements);
            let settings = json_to_settings(&row.settings);
            match (elements, settings) {
                (Option::Some(elements), Option::Some(settings)) => {
                    ok_response(PageContent { elements, settings })
                }
                _ => err_response("Failed to parse content: schema mismatch".to_owned()),
            }
        }
    }
}

/// Running the initializer twice leaves what one run leaves, and a store
/// whose page row exists is never altered by it.
pub proof fn lemma_init_idempotent(s: StoreV)
    ensures
        init_spec(init_spec(s)) == init_spec(s),
        s.page is Some ==> init_spec(s) == s,
{
}

/// Saving a page and then reading it back yields that page: both stored
/// columns parse back to the saved elements and settings.
pub proof fn lemma_page_roundtrip(s: StoreV, p: PageV)
    requires
        s.page is Some,
    ensures
        save_page_spec(s, p).page matches Option::Some(row) && jv_to_elements(row.elements)
            == Option::Some(p.elements) && jv_to_settings(row.settings) == Option::Some(p.settings),
{
    lemma_elements_roundtrip(p.elements);
    lemma_settings_roundtrip(p.settings);
}

/// Two racing page saves, serialized in either order by the store's atomic
/// row update, leave exactly the later writer's page: no merge, no mixing.
pub proof fn lemma_save_page_last_writer_wins(s: StoreV, p1: PageV, p2: PageV)
    requires
        s.page is Some,
    ensures
        save_page_spec(s, p1).page is Some,
        save_page_spec(save_page_spec(s, p1), p2) == save_page_spec(s, p2),
{
}

/// Whether some row carries this component id.
pub open spec fn has_id(rows: Seq<RowV>, id: i64) -> bool {
    exists|k: int| 0 <= k < rows.len() && (#[trigger] rows[k]).id == id
}

/// The index of the row carrying this id; meaningful when `has_id` holds,
/// and unique under `store_wf`.
pub open spec fn idx_of(rows: Seq<RowV>, id: i64) -> int {
    choose|k: int| 0 <= k < rows.len() && (#[trigger] rows[k]).id == id
}

/// The row a component is stored as, with the given timestamps.
pub open spec fn row_of(c: ComponentV, created_at: i64, updated_at: i64) -> RowV {
    RowV {
        id: c.id,
        name: c.name,
        icon: c.icon,
        category: c.category,
        description: c.description,
        properties: props_jv(c.properties),
        can_contain_content: c.can_contain_content,
        default_content: contents_jv(c.default_content),
        tags: opt_strs_jv(c.tags),
        created_at,
        updated_at,
    }
}

/// What a component save does: one atomic insert-or-update keyed by `id`.
/// An update overwrites every column except `created_at` and stamps
/// `updated_at` with the present time; an insert stamps both.
pub open spec fn upsert_spec(s: StoreV, c: ComponentV, now: i64) -> StoreV {
    if has_id(s.components, c.id) {
        let k = idx_of(s.components, c.id);
        StoreV {
            page: s.page,
            components: s.components.update(k, row_of(c, s.components[k].created_at, now)),
        }
    } else {
        StoreV { page: s.page, components: s.components.push(row_of(c, now, now)) }
    }
}

/// What a component delete does: drop the row with this id if present;
/// deleting an absent id changes nothing.
pub open spec fn delete_spec(s: StoreV, id: i64) -> StoreV {
    if has_id(s.components, id) {
        StoreV { page: s.page, components: s.components.remove(idx_of(s.components, id)) }
    } else {
        s
    }
}

fn build_row(component: &Component, created_at: i64, updated_at: i64) -> (r: ComponentRow)
    ensures
        r.deep_view() == row_of(component.deep_view(), created_at, updated_at),
{
    let r = ComponentRow {
        id: component.id,
        name: component.name.clone(),
        icon: component.icon.clone(),
        category: component.category.clone(),
        description: match &component.description {
            Option::Some(d) => Option::Some(d.clone()),
            Option::None => Option::None,
        },
        properties: props_to_json(&component.properties),
        can_contain_content: component.can_contain_content,
        default_content: contents_to_json(&component.default_content),
        tags: opt_strs_to_json(&component.tags),
        created_at,
        updated_at,
    };
    proof {
        crate::models::lemma_comp_v_default_content(*component);
    }
    r
}


fn find_by_id(rows: &Vec<ComponentRow>, id: i64) -> (r: Option<usize>)
    ensures
        match r {
            Option::Some(i) => i < rows.len() && rows.deep_view()[i as int].id == id,
            Option::None => forall|k: int|
                0 <= k < rows.len() ==> (#[trigger] rows.deep_view()[k]).id != id,
        },
{
    let mut i: usize = 0;
    while i < rows.len()
        invariant
            i <= rows.len(),
            forall|k: int| 0 <= k < i ==> (#[trigger] rows.deep_view()[k]).id != id,
        decreases rows.len() - i,
    {
        if rows[i].id == id {
            proof {
                assert(rows.deep_view()[i as int].id == id);
            }
            return Option::Some(i);
        }
        proof {
            assert(rows.deep_view()[i as int] == rows@[i as int].deep_view());
        }
        i = i + 1;
    }
    Option::None
}

/// Upsert a component by id and echo the submitted component back.
pub fn save_component(store: &mut Store, component: Component, now: i64) -> (r: ApiResponse<
    Component,
>)
    requires
        store_wf(old(store).deep_view()),
    ensures
        final(store).deep_view() == upsert_spec(
            old(store).deep_view(),
            component.deep_view(),
            now,
        ),
        store_wf(final(store).deep_view()),
        r.success && r.data == Option::Some(component) && r.error is None,
{
    let ghost old_rows = old(store).deep_view().components;
    let ghost cv = component.deep_view();
    let search = find_by_id(&store.components, component.id);
    if let Option::Some(idx) = search {
        let created_at = store.components[idx].created_at;
        let row = build_row(&component, created_at, now);
        let ghost rowv = row.deep_view();
        let _replaced = store.components.remove(idx);
        store.components.insert(idx, row);
        proof {
            assert(store.components@ =~= old(store).components@.update(idx as int, row));
            assert(store.deep_view().components =~~= old_rows.update(idx as int, rowv));
            assert(has_id(old_rows, cv.id));
            let k = idx_of(old_rows, cv.id);
            assert(0 <= k < old_rows.len() && old_rows[k].id == cv.id);
            assert(k == idx) by {
                if k < idx as int {
                    assert(old_rows[k].id != old_rows[idx as int].id);
                } else if k > idx as int {
                    assert(old_rows[idx as int].id != old_rows[k].id);
                }
            }
            assert forall|i: int, k2: int|
                0 <= i < k2 < store.deep_view().components.len() implies (
            #[trigger] store.deep_view().components[i]).id != (
            #[trigger] store.deep_view().components[k2]).id by {
                assert(store.deep_view().components[i].id == old_rows[i].id);
                assert(store.deep_view().components[k2].id == old_rows[k2].id);
            }
        }
        ok_response(component)
    } else {
        let row = build_row(&component, now, now);
        let ghost rowv = row.deep_view();
        store.components.push(row);
        proof {
            assert(store.deep_view().components =~~= old_rows.push(rowv));
            assert(!has_id(old_rows, cv.id));
            let n = old_rows.len() as int;
            assert forall|i: int, k2: int|
                0 <= i < k2 < store.deep_view().components.len() implies (
            #[trigger] store.deep_view().components[i]).id != (
            #[trigger] store.deep_view().components[k2]).id by {
                if k2 < n {
                    assert(store.deep_view().components[i].id == old_rows[i].id);
                    assert(store.deep_view().components[k2].id == old_rows[k2].id);
                } else {
                    assert(store.deep_view().components[i].id == old_rows[i].id);
                    assert(store.deep_view().components[k2].id == cv.id);
                }
            }
        }
        ok_response(component)
    }
}

/// Delete the component row with this id; deleting an id with no matching
/// row succeeds and changes nothing.
pub fn delete_component(store: &mut Store, id: i64) -> (r: ApiResponse<()>)
    requires
        store_wf(old(store).deep_view()),
    ensures
        final(store).deep_view() == delete_spec(old(store).deep_view(), id),
        store_wf(final(store).deep_view()),
        r.success && r.data == Option::Some(()) && r.error is None,
{
    let ghost old_rows = old(store).deep_view().components;
    let search = find_by_id(&store.components, id);
    if let Option::Some(idx) = search {
        let _removed = store.components.remove(idx);
        proof {
            assert(store.deep_view().components =~~= old_rows.remove(idx as int));
            assert(has_id(old_rows, id));
            let k = idx_of(old_rows, id);
            assert(0 <= k < old_rows.len() && old_rows[k].id == id);
            assert(k == idx) by {
                if k < idx as int {
                    assert(old_rows[k].id != old_rows[idx as int].id);
                } else if k > idx as int {
                    assert(old_rows[idx as int].id != old_rows[k].id);
                }
            }
            assert forall|i: int, k2: int|
                0 <= i < k2 < store.deep_view().components.len() implies (
            #[trigger] store.deep_view().components[i]).id != (
            #[trigger] store.deep_view().components[k2]).id by {
                let rows = store.deep_view().components;
                let oi: int = if i < idx as int {
                    i
                } else {
                    i + 1
                };
                let ok2: int = if k2 < idx as int {
                    k2
                } else {
                    k2 + 1
                };
                assert(rows[i].id == old_rows[oi].id);
                assert(rows[k2].id == old_rows[ok2].id);
            }
        }
        ok_response(())
    } else {
        proof {
            assert(!has_id(old_rows, id));
        }
        ok_response(())
    }
}

/// Upserting a fresh id appends one row stamped with the present time;
/// upserting the same id again overwrites that row's columns, keeps its
/// `created_at`, and advances `updated_at` to the second call's time.
pub proof fn lemma_upsert_semantics(s: StoreV, c1: ComponentV, c2: ComponentV, t1: i64, t2: i64)
    requires
        store_wf(s),
        !has_id(s.components, c1.id),
        c2.id == c1.id,
    ensures
        upsert_spec(s, c1, t1).components == s.components.push(row_of(c1, t1, t1)),
        upsert_spec(upsert_spec(s, c1, t1), c2, t2).components == s.components.push(
            row_of(c2, t1, t2),
        ),
{
    let s1 = upsert_spec(s, c1, t1);
    let n = s.components.len() as int;
    assert(s1.components == s.components.push(row_of(c1, t1, t1)));
    assert(s1.components[n].id == c1.id);
    assert(has_id(s1.components, c2.id));
    let k = idx_of(s1.components, c2.id);
    assert(0 <= k < s1.components.len() && s1.components[k].id == c2.id);
    assert(k == n) by {
        if k < n {
            assert(s.components[k].id != c1.id);
        }
    }
    assert(s1.components[n].created_at == t1);
    assert(upsert_spec(s1, c2, t2).components =~= s.components.push(row_of(c2, t1, t2)));
}

/// Deleting an id with no matching row is a no-op on the store.
pub proof fn lemma_delete_absent_noop(s: StoreV, id: i64)
    requires
        !has_id(s.components, id),
    ensures
        delete_spec(s, id) == s,
{
}

/// The component a stored row describes, where its three JSON columns
/// match the expected shapes; rows that do not parse yield nothing.
pub open spec fn row_parses(r: RowV) -> Option<ComponentV> {
    if jv_to_props(r.properties) is Some && jv_to_contents(r.default_content) is Some
        && jv_to_opt_strs(r.tags) is Some {
        Option::Some(
            ComponentV {
                id: r.id,
                name: r.name,
                icon: r.icon,
                category: r.category,
                description: r.description,
                properties: jv_to_props(r.properties)->Some_0,
                can_contain_content: r.can_contain_content,
                default_content: jv_to_contents(r.default_content)->Some_0,
                tags: jv_to_opt_strs(r.tags)->Some_0,
            },
        )
    } else {
        Option::None
    }
}

/// The components of the rows that parse, in row order: a malformed row
/// is skipped, never an error.
pub open spec fn listing(rows: Seq<RowV>) -> Seq<ComponentV>
    decreases rows.len(),
{
    if rows.len() == 0 {
        Seq::empty()
    } else {
        match row_parses(rows[0]) {
            Option::Some(c) => seq![c] + listing(rows.drop_first()),
            Option::None => listing(rows.drop_first()),
        }
    }
}

/// Name order, ascending, as the catalog listing returns it.
pub open spec fn sorted_by_name(cs: Seq<ComponentV>) -> bool {
    forall|i: int, k: int|
        0 <= i < k < cs.len() ==> lex_le((#[trigger] cs[i]).name, (#[trigger] cs[k]).name)
}

proof fn lemma_insert_to_multiset(s: Seq<ComponentV>, k: int, x: ComponentV)
    requires
        0 <= k <= s.len(),
    ensures
        s.insert(k, x).to_multiset() == s.to_multiset().insert(x),
{
    broadcast use vstd::seq_lib::group_to_multiset_ensures;
    broadcast use vstd::multiset::group_multiset_axioms;

    vstd::seq_lib::lemma_multiset_commutative(s.take(k), seq![x] + s.skip(k));
    vstd::seq_lib::lemma_multiset_commutative(seq![x], s.skip(k));
    vstd::seq_lib::lemma_multiset_commutative(s.take(k), s.skip(k));
    assert(s.insert(k, x) =~= s.take(k) + (seq![x] + s.skip(k)));
    assert(s.take(k) + s.skip(k) =~= s);
    assert(Seq::<ComponentV>::empty().push(x) =~= seq![x]);
    assert(seq![x].to_multiset() =~= Multiset::<ComponentV>::empty().insert(x));
    assert(s.insert(k, x).to_multiset() =~= s.to_multiset().insert(x));
}

/// Decode one stored row into a component.
pub fn row_to_component(row: &ComponentRow) -> (r: Option<Component>)
    ensures
        match r {
            Option::Some(c) => row_parses(row.deep_view()) == Option::Some(c.deep_view()),
            Option::None => row_parses(row.deep_view()) is None,
        },
{
    let properties = match json_to_props(&row.properties) {
        Option::Some(ps) => ps,
        Option::None => {
            return Option::None;
        }
    };
    let default_content = match json_to_contents(&row.default_content) {
        Option::Some(cs) => cs,
        Option::None => {
            return Option::None;
        }
    };
    let tags = match json_to_opt_strs(&row.tags) {
        Option::Some(t) => t,
        Option::None => {
            return Option::None;
        }
    };
    let c = Component {
        id: row.id,
        name: row.name.clone(),
        icon: row.icon.clone(),
        category: row.category.clone(),
        description: match &row.description {
            Option::Some(d) => Option::Some(d.clone()),
            Option::None => Option::None,
        },
        properties,
        can_contain_content: row.can_contain_content,
        default_content,
        tags,
    };
    proof {
        crate::models::lemma_comp_v_default_content(c);
    }
    Option::Some(c)
}

/// List the catalog ordered by name ascending (by code point, as a
/// byte-wise collation orders it); rows whose JSON columns do not parse
/// are silently skipped.
pub fn get_components(store: &Store) -> (r: ApiResponse<Vec<Component>>)
    ensures
        r.success && r.error is None,
        r.data matches Option::Some(cs) && cs.deep_view().to_multiset() == listing(
            store.deep_view().components,
        ).to_multiset() && sorted_by_name(cs.deep_view()),
{
    let ghost rows = store.deep_view().components;
    let mut parsed: Vec<Component> = Vec::new();
    let mut i: usize = 0;
    proof {
        assert(rows.skip(0) =~= rows);
        assert(parsed.deep_view() + listing(rows.skip(0)) =~= listing(rows));
    }
    while i < store.components.len()
        invariant
            i <= store.components.len(),
            rows == store.deep_view().components,
            listing(rows) == parsed.deep_view() + listing(rows.skip(i as int)),
        decreases store.components.len() - i,
    {
        let ghost pre = rows.skip(i as int);
        proof {
            assert(pre[0] == rows[i as int]);
            assert(rows[i as int] == store.components@[i as int].deep_view());
            assert(pre.drop_first() =~= rows.skip(i + 1));
        }
        match row_to_component(&store.components[i]) {
            Option::Some(c) => {
                let ghost prevp = parsed.deep_view();
                let ghost cv = c.deep_view();
                parsed.push(c);
                proof {
                    assert(parsed.deep_view() =~~= prevp + seq![cv]);
                    assert(listing(pre) == seq![cv] + listing(rows.skip(i + 1)));
                    assert(prevp + (seq![cv] + listing(rows.skip(i + 1))) =~= (prevp + seq![cv])
                        + listing(rows.skip(i + 1)));
                }
            }
            Option::None => {
                proof {
                    assert(listing(pre) == listing(rows.skip(i + 1)));
                }
            }
        }
        i = i + 1;
    }
    proof {
        assert(rows.skip(rows.len() as int) =~= Seq::<RowV>::empty());
        assert(parsed.deep_view() + listing(rows.skip(rows.len() as int)) =~= parsed.deep_view());
    }
    let ghost all = parsed.deep_view();
    let mut sorted: Vec<Component> = Vec::new();
    proof {
        broadcast use vstd::seq_lib::group_to_multiset_ensures;

        assert(sorted.deep_view() =~= Seq::<ComponentV>::empty());
        assert(sorted.deep_view().to_multiset().add(parsed.deep_view().to_multiset())
            =~= all.to_multiset());
    }
    while parsed.len() > 0
        invariant
            sorted.deep_view().to_multiset().add(parsed.deep_view().to_multiset())
                == all.to_multiset(),
            sorted_by_name(sorted.deep_view()),
        decreases parsed.len(),
    {
        let ghost old_parsed = parsed.deep_view();
        let ghost old_sorted = sorted.deep_view();
        let x = parsed.remove(0);
        let ghost xv = x.deep_view();
        proof {
            broadcast use vstd::seq_lib::group_to_multiset_ensures;

            assert(parsed.deep_view() =~~= old_parsed.remove(0));
            assert(parsed.deep_view().to_multiset() =~= old_parsed.to_multiset().remove(xv));
        }
        let mut k: usize = 0;
        while k < sorted.len() && lex_le_strings(&sorted[k].name, &x.name)
            invariant
                k <= sorted.len(),
                old_sorted == sorted.deep_view(),
                xv == x.deep_view(),
                forall|j: int|
                    0 <= j < k ==> lex_le((#[trigger] sorted.deep_view()[j]).name, xv.name),
            decreases sorted.len() - k,
        {
            proof {
                assert(sorted.deep_view()[k as int] == sorted@[k as int].deep_view());
                assert(lex_le(sorted.deep_view()[k as int].name, xv.name));
            }
            k = k + 1;
        }
        proof {
            if k < sorted.len() {
                assert(old_sorted[k as int] == sorted@[k as int].deep_view());
                assert(!lex_le(old_sorted[k as int].name, xv.name));
                lemma_lex_le_total(old_sorted[k as int].name, xv.name);
                assert(lex_le(xv.name, old_sorted[k as int].name));
            }
        }
        let ghost kk = k as int;
        sorted.insert(k, x);
        proof {
            broadcast use vstd::seq_lib::group_to_multiset_ensures;

            assert(sorted.deep_view() =~~= old_sorted.insert(kk, xv));
            lemma_insert_to_multiset(old_sorted, kk, xv);
            assert(sorted.deep_view().to_multiset().add(parsed.deep_view().to_multiset())
                =~= all.to_multiset());
            let ns = sorted.deep_view();
            assert forall|i2: int, k2: int| 0 <= i2 < k2 < ns.len() implies lex_le(
                (#[trigger] ns[i2]).name,
                (#[trigger] ns[k2]).name,
            ) by {
                if i2 < kk && k2 < kk {
                    assert(ns[i2] == old_sorted[i2] && ns[k2] == old_sorted[k2]);
                } else if i2 < kk && k2 == kk {
                    assert(ns[i2] == old_sorted[i2] && ns[k2] == xv);
                } else if i2 < kk && k2 > kk {
                    assert(ns[i2] == old_sorted[i2] && ns[k2] == old_sorted[k2 - 1]);
                } else if i2 == kk && k2 > kk {
                    assert(ns[i2] == xv && ns[k2] == old_sorted[k2 - 1]);
                    assert(kk <= k2 - 1 < old_sorted.len());
                    assert(lex_le(xv.name, old_sorted[kk].name));
                    if kk < k2 - 1 {
                        assert(lex_le(old_sorted[kk].name, old_sorted[k2 - 1].name));
                        lemma_lex_le_trans(xv.name, old_sorted[kk].name, old_sorted[k2 - 1].name);
                    }
                } else {
                    assert(i2 > kk && k2 > kk);
                    assert(ns[i2] == old_sorted[i2 - 1] && ns[k2] == old_sorted[k2 - 1]);
                }
            }
        }
    }
    proof {
        broadcast use vstd::seq_lib::group_to_multiset_ensures;

        assert(parsed.deep_view() =~= Seq::<ComponentV>::empty());
        assert(parsed.deep_view().to_multiset().len() == 0);
        assert(sorted.deep_view().to_multiset() =~= sorted.deep_view().to_multiset().add(
            parsed.deep_view().to_multiset(),
        ));
        assert(sorted.deep_view().to_multiset() == listing(rows).to_multiset());
    }
    ok_response(sorted)
}

} // verus!
