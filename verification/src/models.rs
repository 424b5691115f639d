use vstd::prelude::*;

use crate::json::{jv_of, JsonValue, Jv};

verus! {

/// One editable property descriptor of a catalog component.
pub struct Property {
    pub name: String,
    pub value: JsonValue,
    pub label: String,
    pub property_type: String,
    pub category: String,
    pub options: Option<Vec<String>>,
    pub required: Option<bool>,
    pub description: Option<String>,
}

/// Nested default content of a component: a text literal or a nested element.
pub enum Content {
    Text { content: String },
    Element { content: ComponentElement },
}

/// A catalog entry describing a reusable building block.
pub struct Component {
    pub id: i64,
    pub name: String,
    pub icon: String,
    pub category: String,
    pub description: Option<String>,
    pub properties: Vec<Property>,
    pub can_contain_content: bool,
    pub default_content: Vec<Content>,
    pub tags: Option<Vec<String>>,
}

/// One placed instance of a component on the page.
pub struct ComponentElement {
    pub id: i64,
    pub properties: Vec<Property>,
    pub content: Vec<Content>,
    pub element_type: Component,
}

/// The page-wide settings block.
#[derive(Debug, Clone, PartialEq, Eq)]
pub struct PageSettings {
    pub responsive: bool,
    pub width: i32,
    pub height: i32,
    pub max_width: String,
    pub bg_color: String,
}

/// The singleton page document: placed elements plus settings.
pub struct PageContent {
    pub elements: Vec<ComponentElement>,
    pub settings: PageSettings,
}

/// The uniform response envelope of every endpoint.
pub struct ApiResponse<T> {
    pub success: bool,
    pub data: Option<T>,
    pub error: Option<String>,
}

/// Mathematical model of a `Property`.
pub struct PropertyV {
    pub name: Seq<char>,
    pub value: Jv,
    pub label: Seq<char>,
    pub property_type: Seq<char>,
    pub category: Seq<char>,
    pub options: Option<Seq<Seq<char>>>,
    pub required: Option<bool>,
    pub description: Option<Seq<char>>,
}

/// Mathematical model of a `Content`.
pub enum ContentV {
    Text(Seq<char>),
    Element(ElementV),
}

/// Mathematical model of a `Component`.
pub struct ComponentV {
    pub id: i64,
    pub name: Seq<char>,
    pub icon: Seq<char>,
    pub category: Seq<char>,
    pub description: Option<Seq<char>>,
    pub properties: Seq<PropertyV>,
    pub can_contain_content: bool,
    pub default_content: Seq<ContentV>,
    pub tags: Option<Seq<Seq<char>>>,
}

/// Mathematical model of a `ComponentElement`.
pub struct ElementV {
    pub id: i64,
    pub properties: Seq<PropertyV>,
    pub content: Seq<ContentV>,
    pub element_type: ComponentV,
}

/// Mathematical model of `PageSettings`.
pub struct SettingsV {
    pub responsive: bool,
    pub width: i32,
    pub height: i32,
    pub max_width: Seq<char>,
    pub bg_color: Seq<char>,
}

/// Mathematical model of `PageContent`.
pub struct PageV {
    pub elements: Seq<ElementV>,
    pub settings: SettingsV,
}

/// Mathematical value of a `Property`.
pub open spec fn prop_v(p: Property) -> PropertyV {
    PropertyV {
        name: p.name@,
        value: jv_of(p.value),
        label: p.label@,
        property_type: p.property_type@,
        category: p.category@,
        options: p.options.deep_view(),
        required: p.required,
        description: p.description.deep_view(),
    }
}

/// Mathematical value of a `Content`.
pub open spec fn content_v(c: Content) -> ContentV
    decreases c,
{
    match c {
        Content::Text { content } => ContentV::Text(content@),
        Content::Element { content } => ContentV::Element(elem_v(content)),
    }
}

/// Mathematical value of a `ComponentElement`.
pub open spec fn elem_v(e: ComponentElement) -> ElementV
    decreases e,
    via elem_v_decreases
{
    ElementV {
        id: e.id,
        properties: e.properties.deep_view(),
        content: Seq::new(
            e.content@.len(),
            |i: int|
                if 0 <= i < e.content@.len() {
                    content_v(e.content@[i])
                } else {
                    ContentV::Text(Seq::empty())
                },
        ),
        element_type: comp_v(e.element_type),
    }
}

#[via_fn]
proof fn elem_v_decreases(e: ComponentElement) {
    broadcast use vstd::std_specs::vec::axiom_vec_index_decreases;
    let cs = e.content;
    assert forall|i: int| 0 <= i < cs@.len() implies decreases_to!(e => cs@[i]) by {
        assert(decreases_to!(e => cs));
        assert(decreases_to!(cs => cs@[i]));
    }
}

/// Mathematical value of a `Component`.
pub open spec fn comp_v(c: Component) -> ComponentV
    decreases c,
    via comp_v_decreases
{
    ComponentV {
        id: c.id,
        name: c.name@,
        icon: c.icon@,
        category: c.category@,
        description: c.description.deep_view(),
        properties: c.properties.deep_view(),
        can_contain_content: c.can_contain_content,
        default_content: Seq::new(
            c.default_content@.len(),
            |i: int|
                if 0 <= i < c.default_content@.len() {
                    content_v(c.default_content@[i])
                } else {
                    ContentV::Text(Seq::empty())
                },
        ),
        tags: c.tags.deep_view(),
    }
}

#[via_fn]
proof fn comp_v_decreases(c: Component) {
    broadcast use vstd::std_specs::vec::axiom_vec_index_decreases;
    let cs = c.default_content;
    assert forall|i: int| 0 <= i < cs@.len() implies decreases_to!(c => cs@[i]) by {
        assert(decreases_to!(c => cs));
        assert(decreases_to!(cs => cs@[i]));
    }
}

impl DeepView for Property {
    type V = PropertyV;

    open spec fn deep_view(&self) -> PropertyV {
        prop_v(*self)
    }
}

impl DeepView for Content {
    type V = ContentV;

    open spec fn deep_view(&self) -> ContentV {
        content_v(*self)
    }
}

impl DeepView for Component {
    type V = ComponentV;

    open spec fn deep_view(&self) -> ComponentV {
        comp_v(*self)
    }
}

impl DeepView for ComponentElement {
    type V = ElementV;

    open spec fn deep_view(&self) -> ElementV {
        elem_v(*self)
    }
}

impl DeepView for PageSettings {
    type V = SettingsV;

    open spec fn deep_view(&self) -> SettingsV {
        SettingsV {
            responsive: self.responsive,
            width: self.width,
            height: self.height,
            max_width: self.max_width@,
            bg_color: self.bg_color@,
        }
    }
}

impl DeepView for PageContent {
    type V = PageV;

    open spec fn deep_view(&self) -> PageV {
        PageV { elements: self.elements.deep_view(), settings: self.settings.deep_view() }
    }
}

/// The `content` sequence of an element's value is the deep view of its
/// `content` vector.
pub proof fn lemma_elem_v_content(e: ComponentElement)
    ensures
        elem_v(e).content == e.content.deep_view(),
{
    assert(elem_v(e).content =~~= e.content.deep_view());
}

/// The `default_content` sequence of a component's value is the deep view
/// of its `default_content` vector.
pub proof fn lemma_comp_v_default_content(c: Component)
    ensures
        comp_v(c).default_content == c.default_content.deep_view(),
{
    assert(comp_v(c).default_content =~~= c.default_content.deep_view());
}

} // verus!
