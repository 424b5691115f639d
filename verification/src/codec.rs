use vstd::prelude::*;

use crate::json::{jv_of, lemma_jv_of_arr, lemma_jv_of_obj, JsonValue, Jv};
use crate::models::{comp_v, content_v, elem_v, prop_v, Component, ComponentElement, ComponentV, Content, ContentV, ElementV, PageSettings, Property, PropertyV, SettingsV};

verus! {

// ---------------------------------------------------------------------------
// Canonical JSON shape of each model value, as stored in the JSON columns.
// ---------------------------------------------------------------------------

/// JSON of an optional string: `null` or the string.
pub open spec fn opt_str_jv(o: Option<Seq<char>>) -> Jv {
    match o {
        Option::None => Jv::Null,
        Option::Some(t) => Jv::Str(t),
    }
}

/// JSON of an optional boolean: `null` or the boolean.
pub open spec fn opt_bool_jv(o: Option<bool>) -> Jv {
    match o {
        Option::None => Jv::Null,
        Option::Some(b) => Jv::Bool(b),
    }
}

/// JSON of a string list: an array of strings.
pub open spec fn strs_jv(ts: Seq<Seq<char>>) -> Jv {
    Jv::Arr(Seq::new(ts.len(), |i: int| Jv::Str(ts[i])))
}

/// JSON of an optional string list: `null` or the array.
pub open spec fn opt_strs_jv(o: Option<Seq<Seq<char>>>) -> Jv {
    match o {
        Option::None => Jv::Null,
        Option::Some(ts) => strs_jv(ts),
    }
}

/// JSON of the page settings object.
pub open spec fn settings_jv(s: SettingsV) -> Jv {
    Jv::Obj(
        seq![
            ("responsive"@, Jv::Bool(s.responsive)),
            ("width"@, Jv::Int(s.width as i64)),
            ("height"@, Jv::Int(s.height as i64)),
            ("maxWidth"@, Jv::Str(s.max_width)),
            ("bgColor"@, Jv::Str(s.bg_color)),
        ],
    )
}

/// JSON of one property descriptor.
pub open spec fn prop_jv(p: PropertyV) -> Jv {
    Jv::Obj(
        seq![
            ("name"@, Jv::Str(p.name)),
            ("value"@, p.value),
            ("label"@, Jv::Str(p.label)),
            ("type"@, Jv::Str(p.property_type)),
            ("category"@, Jv::Str(p.category)),
            ("options"@, opt_strs_jv(p.options)),
            ("required"@, opt_bool_jv(p.required)),
            ("description"@, opt_str_jv(p.description)),
        ],
    )
}

/// JSON of a property list.
pub open spec fn props_jv(ps: Seq<PropertyV>) -> Jv {
    Jv::Arr(Seq::new(ps.len(), |i: int| if 0 <= i < ps.len() { prop_jv(ps[i]) } else { Jv::Null }))
}

/// JSON of one content entry, tagged by kind.
pub open spec fn content_jv(c: ContentV) -> Jv
    decreases c,
{
    match c {
        ContentV::Text(t) => Jv::Obj(
            seq![("type"@, Jv::Str("text"@)), ("content"@, Jv::Str(t))],
        ),
        ContentV::Element(e) => Jv::Obj(
            seq![("type"@, Jv::Str("element"@)), ("content"@, elem_jv(e))],
        ),
    }
}

/// JSON of a content list.
pub open spec fn contents_jv(cs: Seq<ContentV>) -> Jv
    decreases cs,
    via contents_jv_decreases
{
    Jv::Arr(
        Seq::new(
            cs.len(),
            |i: int| if 0 <= i < cs.len() { content_jv(cs[i]) } else { Jv::Null },
        ),
    )
}

#[via_fn]
proof fn contents_jv_decreases(cs: Seq<ContentV>) {
    broadcast use vstd::seq::axiom_seq_index_decreases;
    assert forall|i: int| 0 <= i < cs.len() implies decreases_to!(cs => cs[i]) by {
        assert(decreases_to!(cs => cs[i]));
    }
}

/// JSON of one placed element.
pub open spec fn elem_jv(e: ElementV) -> Jv
    decreases e,
{
    Jv::Obj(
        seq![
            ("id"@, Jv::Int(e.id)),
            ("properties"@, props_jv(e.properties)),
            ("content"@, contents_jv(e.content)),
            ("type"@, comp_jv(e.element_type)),
        ],
    )
}

/// JSON of one catalog component.
pub open spec fn comp_jv(c: ComponentV) -> Jv
    decreases c,
{
    Jv::Obj(
        seq![
            ("id"@, Jv::Int(c.id)),
            ("name"@, Jv::Str(c.name)),
            ("icon"@, Jv::Str(c.icon)),
            ("category"@, Jv::Str(c.category)),
            ("description"@, opt_str_jv(c.description)),
            ("properties"@, props_jv(c.properties)),
            ("canContainContent"@, Jv::Bool(c.can_contain_content)),
            ("defaultContent"@, contents_jv(c.default_content)),
            ("tags"@, opt_strs_jv(c.tags)),
        ],
    )
}

/// JSON of the element list column.
pub open spec fn elements_jv(es: Seq<ElementV>) -> Jv {
    Jv::Arr(Seq::new(es.len(), |i: int| if 0 <= i < es.len() { elem_jv(es[i]) } else { Jv::Null }))
}

// ---------------------------------------------------------------------------
// Parsing a JSON value back into a model value.  Parsing is strict: it
// accepts exactly the canonical shape above and nothing else.
// ---------------------------------------------------------------------------

/// Parse an optional string.
pub open spec fn jv_to_opt_str(j: Jv) -> Option<Option<Seq<char>>> {
    match j {
        Jv::Null => Option::Some(Option::None),
        Jv::Str(t) => Option::Some(Option::Some(t)),
        _ => Option::None,
    }
}

/// Parse an optional boolean.
pub open spec fn jv_to_opt_bool(j: Jv) -> Option<Option<bool>> {
    match j {
        Jv::Null => Option::Some(Option::None),
        Jv::Bool(b) => Option::Some(Option::Some(b)),
        _ => Option::None,
    }
}

/// Parse an optional string list.
pub open spec fn jv_to_opt_strs(j: Jv) -> Option<Option<Seq<Seq<char>>>> {
    match j {
        Jv::Null => Option::Some(Option::None),
        Jv::Arr(xs) => if forall|i: int| 0 <= i < xs.len() ==> (#[trigger] xs[i]) is Str {
            Option::Some(Option::Some(Seq::new(xs.len(), |i: int| xs[i]->Str_0)))
        } else {
            Option::None
        },
        _ => Option::None,
    }
}

/// The value of the first field carrying this key, if any.  Later
/// occurrences of the same key and unknown keys do not count, matching a
/// key-order-insensitive reader of a stored object.
pub open spec fn jv_lookup(fs: Seq<(Seq<char>, Jv)>, key: Seq<char>) -> Option<Jv> {
    jv_lookup_from(fs, key, 0)
}

/// The same lookup, started at one position of the field sequence.
pub open spec fn jv_lookup_from(fs: Seq<(Seq<char>, Jv)>, key: Seq<char>, i: int) -> Option<Jv>
    decreases fs.len() - i,
{
    if i < 0 || i >= fs.len() {
        Option::None
    } else if fs[i].0 == key {
        Option::Some(fs[i].1)
    } else {
        jv_lookup_from(fs, key, i + 1)
    }
}

/// A field looked up by key that must hold a boolean.
pub open spec fn get_bool(fs: Seq<(Seq<char>, Jv)>, key: Seq<char>) -> Option<bool> {
    match jv_lookup(fs, key) {
        Option::Some(Jv::Bool(b)) => Option::Some(b),
        _ => Option::None,
    }
}

/// A field looked up by key that must hold an integer.
pub open spec fn get_i64(fs: Seq<(Seq<char>, Jv)>, key: Seq<char>) -> Option<i64> {
    match jv_lookup(fs, key) {
        Option::Some(Jv::Int(n)) => Option::Some(n),
        _ => Option::None,
    }
}

/// A field looked up by key that must hold an integer in `i32` range.
pub open spec fn get_i32(fs: Seq<(Seq<char>, Jv)>, key: Seq<char>) -> Option<i32> {
    match jv_lookup(fs, key) {
        Option::Some(v) => if v is Int && i32::MIN as int <= v->Int_0 as int <= i32::MAX as int {
            Option::Some(v->Int_0 as i32)
        } else {
            Option::None
        },
        _ => Option::None,
    }
}

/// A field looked up by key that must hold a string.
pub open spec fn get_str(fs: Seq<(Seq<char>, Jv)>, key: Seq<char>) -> Option<Seq<char>> {
    match jv_lookup(fs, key) {
        Option::Some(Jv::Str(t)) => Option::Some(t),
        _ => Option::None,
    }
}

/// A field looked up by key that must hold an optional string.
pub open spec fn get_opt_str(fs: Seq<(Seq<char>, Jv)>, key: Seq<char>) -> Option<
    Option<Seq<char>>,
> {
    match jv_lookup(fs, key) {
        Option::Some(v) => jv_to_opt_str(v),
        _ => Option::None,
    }
}

/// A field looked up by key that must hold an optional boolean.
pub open spec fn get_opt_bool(fs: Seq<(Seq<char>, Jv)>, key: Seq<char>) -> Option<Option<bool>> {
    match jv_lookup(fs, key) {
        Option::Some(v) => jv_to_opt_bool(v),
        _ => Option::None,
    }
}

/// A field looked up by key that must hold an optional string list.
pub open spec fn get_opt_strs(fs: Seq<(Seq<char>, Jv)>, key: Seq<char>) -> Option<
    Option<Seq<Seq<char>>>,
> {
    match jv_lookup(fs, key) {
        Option::Some(v) => jv_to_opt_strs(v),
        _ => Option::None,
    }
}

/// A looked-up field value sits inside the field sequence.
pub proof fn lemma_jv_lookup_smaller(fs: Seq<(Seq<char>, Jv)>, key: Seq<char>)
    ensures
        jv_lookup(fs, key) matches Option::Some(v) ==> decreases_to!(fs => v),
{
    lemma_jv_lookup_from_smaller(fs, key, 0);
}

proof fn lemma_jv_lookup_from_smaller(fs: Seq<(Seq<char>, Jv)>, key: Seq<char>, i: int)
    ensures
        jv_lookup_from(fs, key, i) matches Option::Some(v) ==> decreases_to!(fs => v),
    decreases fs.len() - i,
{
    broadcast use vstd::seq::axiom_seq_index_decreases;

    if 0 <= i < fs.len() {
        if fs[i].0 == key {
            assert(decreases_to!(fs => fs[i]));
            assert(decreases_to!(fs[i] => fs[i].1));
        } else {
            lemma_jv_lookup_from_smaller(fs, key, i + 1);
        }
    }
}

/// Where the first occurrence of a key sits at position `k`, the lookup
/// yields that field's value.
pub proof fn lemma_jv_lookup_hit(fs: Seq<(Seq<char>, Jv)>, key: Seq<char>, k: int)
    requires
        0 <= k < fs.len(),
        fs[k].0 == key,
        forall|j: int| 0 <= j < k ==> (#[trigger] fs[j]).0 != key,
    ensures
        jv_lookup(fs, key) == Option::Some(fs[k].1),
{
    lemma_jv_lookup_from_hit(fs, key, 0, k);
}

proof fn lemma_jv_lookup_from_hit(fs: Seq<(Seq<char>, Jv)>, key: Seq<char>, i: int, k: int)
    requires
        0 <= i <= k < fs.len(),
        fs[k].0 == key,
        forall|j: int| i <= j < k ==> (#[trigger] fs[j]).0 != key,
    ensures
        jv_lookup_from(fs, key, i) == Option::Some(fs[k].1),
    decreases k - i,
{
    if i < k {
        lemma_jv_lookup_from_hit(fs, key, i + 1, k);
    }
}

/// Parse the page settings object.
pub open spec fn jv_to_settings(j: Jv) -> Option<SettingsV> {
    match j {
        Jv::Obj(fs) => if get_bool(fs, "responsive"@) is Some && get_i32(fs, "width"@) is Some
            && get_i32(fs, "height"@) is Some && get_str(fs, "maxWidth"@) is Some && get_str(
            fs,
            "bgColor"@,
        ) is Some {
            Option::Some(
                SettingsV {
                    responsive: get_bool(fs, "responsive"@)->Some_0,
                    width: get_i32(fs, "width"@)->Some_0,
                    height: get_i32(fs, "height"@)->Some_0,
                    max_width: get_str(fs, "maxWidth"@)->Some_0,
                    bg_color: get_str(fs, "bgColor"@)->Some_0,
                },
            )
        } else {
            Option::None
        },
        _ => Option::None,
    }
}

/// Parse one property descriptor.
pub open spec fn jv_to_prop(j: Jv) -> Option<PropertyV> {
    match j {
        Jv::Obj(fs) => if get_str(fs, "name"@) is Some && jv_lookup(fs, "value"@) is Some
            && get_str(fs, "label"@) is Some && get_str(fs, "type"@) is Some && get_str(
            fs,
            "category"@,
        ) is Some && get_opt_strs(fs, "options"@) is Some && get_opt_bool(fs, "required"@) is Some
            && get_opt_str(fs, "description"@) is Some {
            Option::Some(
                PropertyV {
                    name: get_str(fs, "name"@)->Some_0,
                    value: jv_lookup(fs, "value"@)->Some_0,
                    label: get_str(fs, "label"@)->Some_0,
                    property_type: get_str(fs, "type"@)->Some_0,
                    category: get_str(fs, "category"@)->Some_0,
                    options: get_opt_strs(fs, "options"@)->Some_0,
                    required: get_opt_bool(fs, "required"@)->Some_0,
                    description: get_opt_str(fs, "description"@)->Some_0,
                },
            )
        } else {
            Option::None
        },
        _ => Option::None,
    }
}

/// Parse a property list.
pub open spec fn jv_to_props(j: Jv) -> Option<Seq<PropertyV>> {
    match j {
        Jv::Arr(xs) => if forall|i: int| 0 <= i < xs.len() ==> (#[trigger] jv_to_prop(xs[i]))
            is Some {
            Option::Some(Seq::new(xs.len(), |i: int| jv_to_prop(xs[i])->Some_0))
        } else {
            Option::None
        },
        _ => Option::None,
    }
}

/// Parse one content entry.
pub open spec fn jv_to_content(j: Jv) -> Option<ContentV>
    decreases j, 0int,
    via jv_to_content_decreases
{
    match j {
        Jv::Obj(fs) => if get_str(fs, "type"@) == Option::Some("text"@) && (jv_lookup(
            fs,
            "content"@,
        ) matches Option::Some(v) && v is Str) {
            Option::Some(ContentV::Text(jv_lookup(fs, "content"@)->Some_0->Str_0))
        } else if get_str(fs, "type"@) == Option::Some("element"@) && (jv_lookup(fs, "content"@)
            matches Option::Some(v) && jv_to_elem(v) is Some) {
            Option::Some(ContentV::Element(jv_to_elem(jv_lookup(fs, "content"@)->Some_0)->Some_0))
        } else {
            Option::None
        },
        _ => Option::None,
    }
}

#[via_fn]
proof fn jv_to_content_decreases(j: Jv) {
    if j is Obj {
        let fs = j->Obj_0;
        assert(decreases_to!(j => fs));
        lemma_jv_lookup_smaller(fs, "content"@);
    }
}

/// Parse a content list.
pub open spec fn jv_to_contents(j: Jv) -> Option<Seq<ContentV>>
    decreases j, 1int,
    via jv_to_contents_decreases
{
    match j {
        Jv::Arr(xs) => jv_parse_list(xs),
        _ => Option::None,
    }
}

#[via_fn]
proof fn jv_to_contents_decreases(j: Jv) {
    if j is Arr {
        assert(decreases_to!(j => j->Arr_0));
    }
}

/// Parse the entries of a content array, first entry first.
pub open spec fn jv_parse_list(xs: Seq<Jv>) -> Option<Seq<ContentV>>
    decreases xs, 2int,
    via jv_parse_list_decreases
{
    if xs.len() == 0 {
        Option::Some(Seq::empty())
    } else {
        match jv_to_content(xs[0]) {
            Option::None => Option::None,
            Option::Some(c) => match jv_parse_list(xs.drop_first()) {
                Option::None => Option::None,
                Option::Some(rest) => Option::Some(seq![c] + rest),
            },
        }
    }
}

#[via_fn]
proof fn jv_parse_list_decreases(xs: Seq<Jv>) {
    broadcast use vstd::seq::axiom_seq_index_decreases;
    broadcast use vstd::seq::axiom_seq_subrange_decreases;
    if xs.len() > 0 {
        assert(decreases_to!(xs => xs[0]));
        assert(decreases_to!(xs => xs.drop_first()));
    }
}

/// Parse one placed element.
pub open spec fn jv_to_elem(j: Jv) -> Option<ElementV>
    decreases j, 0int,
    via jv_to_elem_decreases
{
    match j {
        Jv::Obj(fs) => if get_i64(fs, "id"@) is Some && (jv_lookup(fs, "properties"@)
            matches Option::Some(pv) && jv_to_props(pv) is Some) && (jv_lookup(fs, "content"@)
            matches Option::Some(cv) && jv_to_contents(cv) is Some) && (jv_lookup(fs, "type"@)
            matches Option::Some(tv) && jv_to_comp(tv) is Some) {
            Option::Some(
                ElementV {
                    id: get_i64(fs, "id"@)->Some_0,
                    properties: jv_to_props(jv_lookup(fs, "properties"@)->Some_0)->Some_0,
                    content: jv_to_contents(jv_lookup(fs, "content"@)->Some_0)->Some_0,
                    element_type: jv_to_comp(jv_lookup(fs, "type"@)->Some_0)->Some_0,
                },
            )
        } else {
            Option::None
        },
        _ => Option::None,
    }
}

#[via_fn]
proof fn jv_to_elem_decreases(j: Jv) {
    if j is Obj {
        let fs = j->Obj_0;
        assert(decreases_to!(j => fs));
        lemma_jv_lookup_smaller(fs, "content"@);
        lemma_jv_lookup_smaller(fs, "type"@);
    }
}

/// Parse one catalog component.
pub open spec fn jv_to_comp(j: Jv) -> Option<ComponentV>
    decreases j, 0int,
    via jv_to_comp_decreases
{
    match j {
        Jv::Obj(fs) => if get_i64(fs, "id"@) is Some && get_str(fs, "name"@) is Some && get_str(
            fs,
            "icon"@,
        ) is Some && get_str(fs, "category"@) is Some && get_opt_str(fs, "description"@) is Some
            && (jv_lookup(fs, "properties"@) matches Option::Some(pv) && jv_to_props(pv) is Some)
            && get_bool(fs, "canContainContent"@) is Some && (jv_lookup(fs, "defaultContent"@)
            matches Option::Some(dv) && jv_to_contents(dv) is Some) && get_opt_strs(fs, "tags"@)
            is Some {
            Option::Some(
                ComponentV {
                    id: get_i64(fs, "id"@)->Some_0,
                    name: get_str(fs, "name"@)->Some_0,
                    icon: get_str(fs, "icon"@)->Some_0,
                    category: get_str(fs, "category"@)->Some_0,
                    description: get_opt_str(fs, "description"@)->Some_0,
                    properties: jv_to_props(jv_lookup(fs, "properties"@)->Some_0)->Some_0,
                    can_contain_content: get_bool(fs, "canContainContent"@)->Some_0,
                    default_content: jv_to_contents(
                        jv_lookup(fs, "defaultContent"@)->Some_0,
                    )->Some_0,
                    tags: get_opt_strs(fs, "tags"@)->Some_0,
                },
            )
        } else {
            Option::None
        },
        _ => Option::None,
    }
}

#[via_fn]
proof fn jv_to_comp_decreases(j: Jv) {
    if j is Obj {
        let fs = j->Obj_0;
        assert(decreases_to!(j => fs));
        lemma_jv_lookup_smaller(fs, "defaultContent"@);
    }
}

/// Parse the element list column.
pub open spec fn jv_to_elements(j: Jv) -> Option<Seq<ElementV>> {
    match j {
        Jv::Arr(xs) => if forall|i: int| 0 <= i < xs.len() ==> (#[trigger] jv_to_elem(xs[i]))
            is Some {
            Option::Some(Seq::new(xs.len(), |i: int| jv_to_elem(xs[i])->Some_0))
        } else {
            Option::None
        },
        _ => Option::None,
    }
}

// ---------------------------------------------------------------------------
// Parsing the canonical JSON of a value gives the value back.
// ---------------------------------------------------------------------------

/// Parsing an encoded optional string list succeeds and is the identity.
pub proof fn lemma_opt_strs_roundtrip(o: Option<Seq<Seq<char>>>)
    ensures
        jv_to_opt_strs(opt_strs_jv(o)) == Option::Some(o),
{
    match o {
        Option::None => {}
        Option::Some(ts) => {
            let xs = strs_jv(ts)->Arr_0;
            assert(forall|i: int| 0 <= i < xs.len() ==> (#[trigger] xs[i]) is Str);
            assert(Seq::new(xs.len(), |i: int| xs[i]->Str_0) =~= ts);
        }
    }
}

/// Parsing encoded settings succeeds and is the identity.
pub proof fn lemma_settings_roundtrip(s: SettingsV)
    ensures
        jv_to_settings(settings_jv(s)) == Option::Some(s),
{
    broadcast use vstd::string::group_string_axioms;

    reveal_strlit("responsive");
    reveal_strlit("width");
    reveal_strlit("height");
    reveal_strlit("maxWidth");
    reveal_strlit("bgColor");
    let fs = settings_jv(s)->Obj_0;
    assert(fs[0].0 == "responsive"@);
    assert(fs[1].0 == "width"@);
    assert(fs[2].0 == "height"@);
    assert(fs[3].0 == "maxWidth"@);
    assert(fs[4].0 == "bgColor"@);
    assert("responsive"@ != "width"@);
    assert("responsive"@ != "height"@);
    assert("responsive"@ != "maxWidth"@);
    assert("responsive"@ != "bgColor"@);
    assert("width"@ != "height"@);
    assert("width"@ != "maxWidth"@);
    assert("width"@ != "bgColor"@);
    assert("height"@ != "maxWidth"@);
    assert("height"@ != "bgColor"@);
    assert("maxWidth"@ != "bgColor"@);
    lemma_jv_lookup_hit(fs, "responsive"@, 0);
    lemma_jv_lookup_hit(fs, "width"@, 1);
    lemma_jv_lookup_hit(fs, "height"@, 2);
    lemma_jv_lookup_hit(fs, "maxWidth"@, 3);
    lemma_jv_lookup_hit(fs, "bgColor"@, 4);
    assert(((s.width as i64) as i32) == s.width);
    assert(((s.height as i64) as i32) == s.height);
}

/// Parsing one encoded property succeeds and is the identity.
pub proof fn lemma_prop_roundtrip(p: PropertyV)
    ensures
        jv_to_prop(prop_jv(p)) == Option::Some(p),
{
    broadcast use vstd::string::group_string_axioms;

    reveal_strlit("name");
    reveal_strlit("value");
    reveal_strlit("label");
    reveal_strlit("type");
    reveal_strlit("category");
    reveal_strlit("options");
    reveal_strlit("required");
    reveal_strlit("description");
    lemma_opt_strs_roundtrip(p.options);
    let fs = prop_jv(p)->Obj_0;
    assert(fs[0].0 == "name"@);
    assert(fs[1].0 == "value"@);
    assert(fs[2].0 == "label"@);
    assert(fs[3].0 == "type"@);
    assert(fs[4].0 == "category"@);
    assert(fs[5].0 == "options"@);
    assert(fs[6].0 == "required"@);
    assert(fs[7].0 == "description"@);
    assert("name"@ != "value"@);
    assert("name"@ != "label"@);
    assert("name"@ != "type"@) by {
        assert("name"@[0] != "type"@[0]);
    }
    assert("name"@ != "category"@);
    assert("name"@ != "options"@);
    assert("name"@ != "required"@);
    assert("name"@ != "description"@);
    assert("value"@ != "label"@) by {
        assert("value"@[0] != "label"@[0]);
    }
    assert("value"@ != "type"@);
    assert("value"@ != "category"@);
    assert("value"@ != "options"@);
    assert("value"@ != "required"@);
    assert("value"@ != "description"@);
    assert("label"@ != "type"@);
    assert("label"@ != "category"@);
    assert("label"@ != "options"@);
    assert("label"@ != "required"@);
    assert("label"@ != "description"@);
    assert("type"@ != "category"@);
    assert("type"@ != "options"@);
    assert("type"@ != "required"@);
    assert("type"@ != "description"@);
    assert("category"@ != "options"@);
    assert("category"@ != "required"@) by {
        assert("category"@[0] != "required"@[0]);
    }
    assert("category"@ != "description"@);
    assert("options"@ != "required"@);
    assert("options"@ != "description"@);
    assert("required"@ != "description"@);
    lemma_jv_lookup_hit(fs, "name"@, 0);
    lemma_jv_lookup_hit(fs, "value"@, 1);
    lemma_jv_lookup_hit(fs, "label"@, 2);
    lemma_jv_lookup_hit(fs, "type"@, 3);
    lemma_jv_lookup_hit(fs, "category"@, 4);
    lemma_jv_lookup_hit(fs, "options"@, 5);
    lemma_jv_lookup_hit(fs, "required"@, 6);
    lemma_jv_lookup_hit(fs, "description"@, 7);
}

/// Parsing an encoded property list succeeds and is the identity.
pub proof fn lemma_props_roundtrip(ps: Seq<PropertyV>)
    ensures
        jv_to_props(props_jv(ps)) == Option::Some(ps),
{
    let xs = props_jv(ps)->Arr_0;
    assert forall|i: int| 0 <= i < xs.len() implies (#[trigger] jv_to_prop(xs[i])) is Some by {
        lemma_prop_roundtrip(ps[i]);
    }
    assert(Seq::new(xs.len(), |i: int| jv_to_prop(xs[i])->Some_0) =~= ps) by {
        assert forall|i: int| 0 <= i < xs.len() implies Seq::new(
            xs.len(),
            |k: int| jv_to_prop(xs[k])->Some_0,
        )[i] == ps[i] by {
            lemma_prop_roundtrip(ps[i]);
        }
    }
}

/// Parsing one encoded content entry succeeds and is the identity.
pub proof fn lemma_content_roundtrip(c: ContentV)
    ensures
        jv_to_content(content_jv(c)) == Option::Some(c),
    decreases c, 0int,
{
    broadcast use vstd::string::group_string_axioms;

    reveal_strlit("text");
    reveal_strlit("element");
    reveal_strlit("type");
    reveal_strlit("content");
    let fs = content_jv(c)->Obj_0;
    assert(fs[0].0 == "type"@);
    assert(fs[1].0 == "content"@);
    assert("type"@ != "content"@);
    lemma_jv_lookup_hit(fs, "type"@, 0);
    lemma_jv_lookup_hit(fs, "content"@, 1);
    match c {
        ContentV::Text(t) => {}
        ContentV::Element(e) => {
            lemma_elem_roundtrip(e);
            assert("text"@.len() != "element"@.len());
        }
    }
}

/// Parsing an encoded content list succeeds and is the identity.
pub proof fn lemma_contents_roundtrip(cs: Seq<ContentV>)
    ensures
        jv_to_contents(contents_jv(cs)) == Option::Some(cs),
    decreases cs, 3int,
{
    let xs = contents_jv(cs)->Arr_0;
    lemma_parse_list_roundtrip(cs);
    assert(jv_parse_list(xs) == Option::Some(cs));
}

/// Parsing the entries of an encoded content list gives the entries back.
pub proof fn lemma_parse_list_roundtrip(cs: Seq<ContentV>)
    ensures
        jv_parse_list(contents_jv(cs)->Arr_0) == Option::Some(cs),
    decreases cs, 2int,
{
    broadcast use vstd::seq::axiom_seq_index_decreases;

    let xs = contents_jv(cs)->Arr_0;
    if cs.len() == 0 {
        assert(cs =~= Seq::<ContentV>::empty());
    } else {
        lemma_content_roundtrip(cs[0]);
        lemma_parse_list_roundtrip(cs.drop_first());
        assert(xs.drop_first() =~= contents_jv(cs.drop_first())->Arr_0);
        assert(seq![cs[0]] + cs.drop_first() =~= cs);
    }
}

/// Parsing one encoded element succeeds and is the identity.
pub proof fn lemma_elem_roundtrip(e: ElementV)
    ensures
        jv_to_elem(elem_jv(e)) == Option::Some(e),
    decreases e, 0int,
{
    broadcast use vstd::string::group_string_axioms;

    reveal_strlit("id");
    reveal_strlit("properties");
    reveal_strlit("content");
    reveal_strlit("type");
    lemma_props_roundtrip(e.properties);
    lemma_contents_roundtrip(e.content);
    lemma_comp_roundtrip(e.element_type);
    let fs = elem_jv(e)->Obj_0;
    assert(fs[0].0 == "id"@);
    assert(fs[1].0 == "properties"@);
    assert(fs[2].0 == "content"@);
    assert(fs[3].0 == "type"@);
    assert("id"@ != "properties"@);
    assert("id"@ != "content"@);
    assert("id"@ != "type"@);
    assert("properties"@ != "content"@);
    assert("properties"@ != "type"@);
    assert("content"@ != "type"@);
    lemma_jv_lookup_hit(fs, "id"@, 0);
    lemma_jv_lookup_hit(fs, "properties"@, 1);
    lemma_jv_lookup_hit(fs, "content"@, 2);
    lemma_jv_lookup_hit(fs, "type"@, 3);
}

/// Parsing one encoded component succeeds and is the identity.
pub proof fn lemma_comp_roundtrip(c: ComponentV)
    ensures
        jv_to_comp(comp_jv(c)) == Option::Some(c),
    decreases c, 0int,
{
    broadcast use vstd::string::group_string_axioms;

    reveal_strlit("id");
    reveal_strlit("name");
    reveal_strlit("icon");
    reveal_strlit("category");
    reveal_strlit("description");
    reveal_strlit("properties");
    reveal_strlit("canContainContent");
    reveal_strlit("defaultContent");
    reveal_strlit("tags");
    lemma_props_roundtrip(c.properties);
    lemma_contents_roundtrip(c.default_content);
    lemma_opt_strs_roundtrip(c.tags);
    let fs = comp_jv(c)->Obj_0;
    assert(fs[0].0 == "id"@);
    assert(fs[1].0 == "name"@);
    assert(fs[2].0 == "icon"@);
    assert(fs[3].0 == "category"@);
    assert(fs[4].0 == "description"@);
    assert(fs[5].0 == "properties"@);
    assert(fs[6].0 == "canContainContent"@);
    assert(fs[7].0 == "defaultContent"@);
    assert(fs[8].0 == "tags"@);
    assert("id"@ != "name"@);
    assert("id"@ != "icon"@);
    assert("id"@ != "category"@);
    assert("id"@ != "description"@);
    assert("id"@ != "properties"@);
    assert("id"@ != "canContainContent"@);
    assert("id"@ != "defaultContent"@);
    assert("id"@ != "tags"@);
    assert("name"@ != "icon"@) by {
        assert("name"@[0] != "icon"@[0]);
    }
    assert("name"@ != "category"@);
    assert("name"@ != "description"@);
    assert("name"@ != "properties"@);
    assert("name"@ != "canContainContent"@);
    assert("name"@ != "defaultContent"@);
    assert("name"@ != "tags"@) by {
        assert("name"@[0] != "tags"@[0]);
    }
    assert("icon"@ != "category"@);
    assert("icon"@ != "description"@);
    assert("icon"@ != "properties"@);
    assert("icon"@ != "canContainContent"@);
    assert("icon"@ != "defaultContent"@);
    assert("icon"@ != "tags"@) by {
        assert("icon"@[0] != "tags"@[0]);
    }
    assert("category"@ != "description"@);
    assert("category"@ != "properties"@);
    assert("category"@ != "canContainContent"@);
    assert("category"@ != "defaultContent"@);
    assert("category"@ != "tags"@);
    assert("description"@ != "properties"@);
    assert("description"@ != "canContainContent"@);
    assert("description"@ != "defaultContent"@);
    assert("description"@ != "tags"@);
    assert("properties"@ != "canContainContent"@);
    assert("properties"@ != "defaultContent"@);
    assert("properties"@ != "tags"@);
    assert("canContainContent"@ != "defaultContent"@);
    assert("canContainContent"@ != "tags"@);
    assert("defaultContent"@ != "tags"@);
    lemma_jv_lookup_hit(fs, "id"@, 0);
    lemma_jv_lookup_hit(fs, "name"@, 1);
    lemma_jv_lookup_hit(fs, "icon"@, 2);
    lemma_jv_lookup_hit(fs, "category"@, 3);
    lemma_jv_lookup_hit(fs, "description"@, 4);
    lemma_jv_lookup_hit(fs, "properties"@, 5);
    lemma_jv_lookup_hit(fs, "canContainContent"@, 6);
    lemma_jv_lookup_hit(fs, "defaultContent"@, 7);
    lemma_jv_lookup_hit(fs, "tags"@, 8);
}

/// Parsing an encoded element list succeeds and is the identity.
pub proof fn lemma_elements_roundtrip(es: Seq<ElementV>)
    ensures
        jv_to_elements(elements_jv(es)) == Option::Some(es),
{
    let xs = elements_jv(es)->Arr_0;
    assert forall|i: int| 0 <= i < xs.len() implies (#[trigger] jv_to_elem(xs[i])) is Some by {
        lemma_elem_roundtrip(es[i]);
    }
    assert(Seq::new(xs.len(), |i: int| jv_to_elem(xs[i])->Some_0) =~= es) by {
        assert forall|i: int| 0 <= i < xs.len() implies Seq::new(
            xs.len(),
            |k: int| jv_to_elem(xs[k])->Some_0,
        )[i] == es[i] by {
            lemma_elem_roundtrip(es[i]);
        }
    }
}

// ---------------------------------------------------------------------------
// Executable encoding.
// ---------------------------------------------------------------------------

/// An owned copy of a key or string value.
fn key(s: &str) -> (r: String)
    ensures
        r@ == s@,
{
    s.to_owned()
}

fn opt_str_to_json(o: &Option<String>) -> (r: JsonValue)
    ensures
        jv_of(r) == opt_str_jv(o.deep_view()),
{
    match o {
        Option::None => JsonValue::Null,
        Option::Some(t) => JsonValue::Str(t.clone()),
    }
}

fn opt_bool_to_json(o: &Option<bool>) -> (r: JsonValue)
    ensures
        jv_of(r) == opt_bool_jv(*o),
{
    match o {
        Option::None => JsonValue::Null,
        Option::Some(b) => JsonValue::Bool(*b),
    }
}

fn strs_to_json(ts: &Vec<String>) -> (r: JsonValue)
    ensures
        jv_of(r) == strs_jv(ts.deep_view()),
{
    let mut out: Vec<JsonValue> = Vec::new();
    let mut i: usize = 0;
    while i < ts.len()
        invariant
            i <= ts.len(),
            out@.len() == i,
            forall|k: int| 0 <= k < i ==> out.deep_view()[k] == Jv::Str(ts.deep_view()[k]),
        decreases ts.len() - i,
    {
        let ghost prev = out;
        out.push(JsonValue::Str(ts[i].clone()));
        i = i + 1;
        proof {
            assert forall|k: int| 0 <= k < i implies out.deep_view()[k] == Jv::Str(
                ts.deep_view()[k],
            ) by {
                if k < i - 1 {
                    assert(out@[k] == prev@[k]);
                    assert(prev.deep_view()[k] == Jv::Str(ts.deep_view()[k]));
                } else {
                    assert(out.deep_view()[k] == jv_of(out@[k]));
                }
            }
        }
    }
    let ghost outs = out;
    let r = JsonValue::Arr(out);
    proof {
        lemma_jv_of_arr(outs);
        assert(outs.deep_view() =~= strs_jv(ts.deep_view())->Arr_0);
    }
    r
}

/// JSON of an optional tag list, as the tags and options columns hold it.
pub fn opt_strs_to_json(o: &Option<Vec<String>>) -> (r: JsonValue)
    ensures
        jv_of(r) == opt_strs_jv(o.deep_view()),
{
    match o {
        Option::None => JsonValue::Null,
        Option::Some(ts) => strs_to_json(ts),
    }
}

/// Encode the settings column.
pub fn settings_to_json(s: &PageSettings) -> (r: JsonValue)
    ensures
        jv_of(r) == settings_jv(s.deep_view()),
{
    let mut fields: Vec<(String, JsonValue)> = Vec::new();
    fields.push((key("responsive"), JsonValue::Bool(s.responsive)));
    fields.push((key("width"), JsonValue::Int(s.width as i64)));
    fields.push((key("height"), JsonValue::Int(s.height as i64)));
    fields.push((key("maxWidth"), JsonValue::Str(s.max_width.clone())));
    fields.push((key("bgColor"), JsonValue::Str(s.bg_color.clone())));
    let ghost gf = fields;
    let r = JsonValue::Obj(fields);
    proof {
        lemma_jv_of_obj(gf);
        assert(gf.deep_view() =~= settings_jv(s.deep_view())->Obj_0);
    }
    r
}

/// Encode one property descriptor.
pub fn prop_to_json(p: &Property) -> (r: JsonValue)
    ensures
        jv_of(r) == prop_jv(p.deep_view()),
{
    let mut fields: Vec<(String, JsonValue)> = Vec::new();
    fields.push((key("name"), JsonValue::Str(p.name.clone())));
    fields.push((key("value"), crate::json::json_clone(&p.value)));
    fields.push((key("label"), JsonValue::Str(p.label.clone())));
    fields.push((key("type"), JsonValue::Str(p.property_type.clone())));
    fields.push((key("category"), JsonValue::Str(p.category.clone())));
    fields.push((key("options"), opt_strs_to_json(&p.options)));
    fields.push((key("required"), opt_bool_to_json(&p.required)));
    fields.push((key("description"), opt_str_to_json(&p.description)));
    let ghost gf = fields;
    let r = JsonValue::Obj(fields);
    proof {
        lemma_jv_of_obj(gf);
        assert(gf.deep_view() =~= prop_jv(p.deep_view())->Obj_0);
    }
    r
}

/// Encode a property list column.
pub fn props_to_json(ps: &Vec<Property>) -> (r: JsonValue)
    ensures
        jv_of(r) == props_jv(ps.deep_view()),
{
    let mut out: Vec<JsonValue> = Vec::new();
    let mut i: usize = 0;
    while i < ps.len()
        invariant
            i <= ps.len(),
            out@.len() == i,
            forall|k: int| 0 <= k < i ==> out.deep_view()[k] == prop_jv(ps.deep_view()[k]),
        decreases ps.len() - i,
    {
        let ghost prev = out;
        out.push(prop_to_json(&ps[i]));
        i = i + 1;
        proof {
            assert forall|k: int| 0 <= k < i implies out.deep_view()[k] == prop_jv(
                ps.deep_view()[k],
            ) by {
                if k < i - 1 {
                    assert(out@[k] == prev@[k]);
                    assert(prev.deep_view()[k] == prop_jv(ps.deep_view()[k]));
                } else {
                    assert(out.deep_view()[k] == jv_of(out@[k]));
                }
            }
        }
    }
    let ghost outs = out;
    let r = JsonValue::Arr(out);
    proof {
        lemma_jv_of_arr(outs);
        assert(outs.deep_view() =~= props_jv(ps.deep_view())->Arr_0);
    }
    r
}

/// Encode one content entry.
#[verifier::loop_isolation(false)]
pub fn content_to_json(c: &Content) -> (r: JsonValue)
    ensures
        jv_of(r) == content_jv(c.deep_view()),
    decreases c,
{
    match c {
        Content::Text { content } => {
            let mut fields: Vec<(String, JsonValue)> = Vec::new();
            fields.push((key("type"), JsonValue::Str(key("text"))));
            fields.push((key("content"), JsonValue::Str(content.clone())));
            let ghost gf = fields;
            let r = JsonValue::Obj(fields);
            proof {
                lemma_jv_of_obj(gf);
                assert(gf.deep_view() =~= content_jv(c.deep_view())->Obj_0);
            }
            r
        }
        Content::Element { content } => {
            let e = elem_to_json(content);
            let mut fields: Vec<(String, JsonValue)> = Vec::new();
            fields.push((key("type"), JsonValue::Str(key("element"))));
            fields.push((key("content"), e));
            let ghost gf = fields;
            let r = JsonValue::Obj(fields);
            proof {
                lemma_jv_of_obj(gf);
                assert(gf.deep_view() =~= content_jv(c.deep_view())->Obj_0);
            }
            r
        }
    }
}

/// Encode a content list column.
#[verifier::loop_isolation(false)]
pub fn contents_to_json(cs: &Vec<Content>) -> (r: JsonValue)
    ensures
        jv_of(r) == contents_jv(cs.deep_view()),
    decreases cs,
{
    let mut out: Vec<JsonValue> = Vec::new();
    let mut i: usize = 0;
    while i < cs.len()
        invariant
            i <= cs.len(),
            out@.len() == i,
            forall|k: int| 0 <= k < i ==> out.deep_view()[k] == content_jv(cs.deep_view()[k]),
        decreases cs.len() - i,
    {
        proof {
            broadcast use vstd::std_specs::vec::axiom_vec_index_decreases;
            assert(decreases_to!(*cs => cs@[i as int]));
        }
        let ghost prev = out;
        out.push(content_to_json(&cs[i]));
        i = i + 1;
        proof {
            assert forall|k: int| 0 <= k < i implies out.deep_view()[k] == content_jv(
                cs.deep_view()[k],
            ) by {
                if k < i - 1 {
                    assert(out@[k] == prev@[k]);
                    assert(prev.deep_view()[k] == content_jv(cs.deep_view()[k]));
                } else {
                    assert(out.deep_view()[k] == jv_of(out@[k]));
                }
            }
        }
    }
    let ghost outs = out;
    let r = JsonValue::Arr(out);
    proof {
        lemma_jv_of_arr(outs);
        assert(outs.deep_view() =~= contents_jv(cs.deep_view())->Arr_0);
    }
    r
}

/// Encode one placed element.
pub fn elem_to_json(e: &ComponentElement) -> (r: JsonValue)
    ensures
        jv_of(r) == elem_jv(e.deep_view()),
    decreases e,
{
    let props = props_to_json(&e.properties);
    let content = contents_to_json(&e.content);
    let ty = comp_to_json(&e.element_type);
    let mut fields: Vec<(String, JsonValue)> = Vec::new();
    fields.push((key("id"), JsonValue::Int(e.id)));
    fields.push((key("properties"), props));
    fields.push((key("content"), content));
    fields.push((key("type"), ty));
    let ghost gf = fields;
    let r = JsonValue::Obj(fields);
    proof {
        crate::models::lemma_elem_v_content(*e);
        lemma_jv_of_obj(gf);
        assert(gf.deep_view() =~= elem_jv(e.deep_view())->Obj_0);
    }
    r
}

/// Encode one catalog component.
pub fn comp_to_json(c: &Component) -> (r: JsonValue)
    ensures
        jv_of(r) == comp_jv(c.deep_view()),
    decreases c,
{
    let props = props_to_json(&c.properties);
    let content = contents_to_json(&c.default_content);
    let mut fields: Vec<(String, JsonValue)> = Vec::new();
    fields.push((key("id"), JsonValue::Int(c.id)));
    fields.push((key("name"), JsonValue::Str(c.name.clone())));
    fields.push((key("icon"), JsonValue::Str(c.icon.clone())));
    fields.push((key("category"), JsonValue::Str(c.category.clone())));
    fields.push((key("description"), opt_str_to_json(&c.description)));
    fields.push((key("properties"), props));
    fields.push((key("canContainContent"), JsonValue::Bool(c.can_contain_content)));
    fields.push((key("defaultContent"), content));
    fields.push((key("tags"), opt_strs_to_json(&c.tags)));
    let ghost gf = fields;
    let r = JsonValue::Obj(fields);
    proof {
        crate::models::lemma_comp_v_default_content(*c);
        lemma_jv_of_obj(gf);
        assert(gf.deep_view() =~= comp_jv(c.deep_view())->Obj_0);
    }
    r
}

/// Encode the elements column.
pub fn elements_to_json(es: &Vec<ComponentElement>) -> (r: JsonValue)
    ensures
        jv_of(r) == elements_jv(es.deep_view()),
{
    let mut out: Vec<JsonValue> = Vec::new();
    let mut i: usize = 0;
    while i < es.len()
        invariant
            i <= es.len(),
            out@.len() == i,
            forall|k: int| 0 <= k < i ==> out.deep_view()[k] == elem_jv(es.deep_view()[k]),
        decreases es.len() - i,
    {
        let ghost prev = out;
        out.push(elem_to_json(&es[i]));
        i = i + 1;
        proof {
            assert forall|k: int| 0 <= k < i implies out.deep_view()[k] == elem_jv(
                es.deep_view()[k],
            ) by {
                if k < i - 1 {
                    assert(out@[k] == prev@[k]);
                    assert(prev.deep_view()[k] == elem_jv(es.deep_view()[k]));
                } else {
                    assert(out.deep_view()[k] == jv_of(out@[k]));
                }
            }
        }
    }
    let ghost outs = out;
    let r = JsonValue::Arr(out);
    proof {
        lemma_jv_of_arr(outs);
        assert(outs.deep_view() =~= elements_jv(es.deep_view())->Arr_0);
    }
    r
}

// ---------------------------------------------------------------------------
// Executable parsing.
// ---------------------------------------------------------------------------

/// Whether a stored key equals an expected field name.
fn is_key(s: &String, lit: &str) -> (b: bool)
    ensures
        b == (s@ == lit@),
{
    let l: String = lit.to_owned();
    *s == l
}

/// The index of the first field carrying this key, if any.
fn find_field(fields: &Vec<(String, JsonValue)>, key: &str) -> (r: Option<usize>)
    ensures
        match r {
            Option::Some(i) => i < fields.len() && fields@[i as int].0@ == key@ && jv_lookup(
                fields.deep_view(),
                key@,
            ) == Option::Some(fields.deep_view()[i as int].1),
            Option::None => jv_lookup(fields.deep_view(), key@) is None,
        },
{
    let ghost fsv = fields.deep_view();
    let mut i: usize = 0;
    while i < fields.len()
        invariant
            i <= fields.len(),
            fsv == fields.deep_view(),
            jv_lookup(fsv, key@) == jv_lookup_from(fsv, key@, i as int),
        decreases fields.len() - i,
    {
        proof {
            assert(fsv[i as int] == fields@[i as int].deep_view());
        }
        if is_key(&fields[i].0, key) {
            proof {
                assert(jv_lookup_from(fsv, key@, i as int) == Option::Some(fsv[i as int].1));
            }
            return Option::Some(i);
        }
        i = i + 1;
    }
    Option::None
}

fn json_to_opt_str(v: &JsonValue) -> (r: Option<Option<String>>)
    ensures
        match r {
            Option::Some(o) => jv_to_opt_str(jv_of(*v)) == Option::Some(o.deep_view()),
            Option::None => jv_to_opt_str(jv_of(*v)) is None,
        },
{
    match v {
        JsonValue::Null => Option::Some(Option::None),
        JsonValue::Str(t) => Option::Some(Option::Some(t.clone())),
        _ => Option::None,
    }
}

fn json_to_opt_bool(v: &JsonValue) -> (r: Option<Option<bool>>)
    ensures
        match r {
            Option::Some(o) => jv_to_opt_bool(jv_of(*v)) == Option::Some(o),
            Option::None => jv_to_opt_bool(jv_of(*v)) is None,
        },
{
    match v {
        JsonValue::Null => Option::Some(Option::None),
        JsonValue::Bool(b) => Option::Some(Option::Some(*b)),
        _ => Option::None,
    }
}

pub fn json_to_opt_strs(v: &JsonValue) -> (r: Option<Option<Vec<String>>>)
    ensures
        match r {
            Option::Some(o) => jv_to_opt_strs(jv_of(*v)) == Option::Some(o.deep_view()),
            Option::None => jv_to_opt_strs(jv_of(*v)) is None,
        },
{
    match v {
        JsonValue::Null => Option::Some(Option::None),
        JsonValue::Arr(xs) => {
            proof {
                lemma_jv_of_arr(*xs);
            }
            let ghost xd = xs.deep_view();
            let mut out: Vec<String> = Vec::new();
            let mut i: usize = 0;
            while i < xs.len()
                invariant
                    i <= xs.len(),
                    xd == xs.deep_view(),
                    jv_of(*v) == Jv::Arr(xd),
                    out@.len() == i,
                    forall|k: int| 0 <= k < i ==> (#[trigger] xd[k]) is Str,
                    forall|k: int| 0 <= k < i ==> out.deep_view()[k] == xd[k]->Str_0,
                decreases xs.len() - i,
            {
                let t = match &xs[i] {
                    JsonValue::Str(t) => t.clone(),
                    _ => {
                        proof {
                            crate::json::lemma_jv_of_kind(xs@[i as int]);
                            assert(!((#[trigger] xd[i as int]) is Str));
                        }
                        return Option::None;
                    }
                };
                let ghost prev = out;
                out.push(t);
                i = i + 1;
                proof {
                    assert forall|k: int| 0 <= k < i implies out.deep_view()[k] == xd[k]->Str_0 by {
                        if k < i - 1 {
                            assert(out@[k] == prev@[k]);
                            assert(prev.deep_view()[k] == xd[k]->Str_0);
                        } else {
                            assert(out.deep_view()[k] == out@[k]@);
                        }
                    }
                }
            }
            proof {
                assert(forall|k: int| 0 <= k < xd.len() ==> (#[trigger] xd[k]) is Str);
                assert(out.deep_view() =~= Seq::new(xd.len(), |k: int| xd[k]->Str_0));
            }
            Option::Some(Option::Some(out))
        }
        _ => Option::None,
    }
}

/// Decode the settings column.
pub fn json_to_settings(j: &JsonValue) -> (r: Option<PageSettings>)
    ensures
        match r {
            Option::Some(s) => jv_to_settings(jv_of(*j)) == Option::Some(s.deep_view()),
            Option::None => jv_to_settings(jv_of(*j)) is None,
        },
{
    match j {
        JsonValue::Obj(fields) => {
            proof {
                lemma_jv_of_obj(*fields);
            }
            let ri = match find_field(fields, "responsive") {
                Option::Some(i) => i,
                Option::None => {
                    return Option::None;
                }
            };
            let responsive = match &fields[ri].1 {
                JsonValue::Bool(b) => *b,
                _ => {
                    proof {
                        crate::json::lemma_jv_of_kind(fields@[ri as int].1);
                    }
                    return Option::None;
                }
            };
            let wi = match find_field(fields, "width") {
                Option::Some(i) => i,
                Option::None => {
                    return Option::None;
                }
            };
            let w = match &fields[wi].1 {
                JsonValue::Int(n) => *n,
                _ => {
                    proof {
                        crate::json::lemma_jv_of_kind(fields@[wi as int].1);
                    }
                    return Option::None;
                }
            };
            if w < i32::MIN as i64 || w > i32::MAX as i64 {
                return Option::None;
            }
            let hi = match find_field(fields, "height") {
                Option::Some(i) => i,
                Option::None => {
                    return Option::None;
                }
            };
            let h = match &fields[hi].1 {
                JsonValue::Int(n) => *n,
                _ => {
                    proof {
                        crate::json::lemma_jv_of_kind(fields@[hi as int].1);
                    }
                    return Option::None;
                }
            };
            if h < i32::MIN as i64 || h > i32::MAX as i64 {
                return Option::None;
            }
            let mi = match find_field(fields, "maxWidth") {
                Option::Some(i) => i,
                Option::None => {
                    return Option::None;
                }
            };
            let max_width = match &fields[mi].1 {
                JsonValue::Str(t) => t.clone(),
                _ => {
                    proof {
                        crate::json::lemma_jv_of_kind(fields@[mi as int].1);
                    }
                    return Option::None;
                }
            };
            let bi = match find_field(fields, "bgColor") {
                Option::Some(i) => i,
                Option::None => {
                    return Option::None;
                }
            };
            let bg_color = match &fields[bi].1 {
                JsonValue::Str(t) => t.clone(),
                _ => {
                    proof {
                        crate::json::lemma_jv_of_kind(fields@[bi as int].1);
                    }
                    return Option::None;
                }
            };
            Option::Some(
                PageSettings { responsive, width: w as i32, height: h as i32, max_width, bg_color },
            )
        }
        _ => Option::None,
    }
}

/// Decode one property descriptor.
pub fn json_to_prop(j: &JsonValue) -> (r: Option<Property>)
    ensures
        match r {
            Option::Some(p) => jv_to_prop(jv_of(*j)) == Option::Some(p.deep_view()),
            Option::None => jv_to_prop(jv_of(*j)) is None,
        },
{
    match j {
        JsonValue::Obj(fields) => {
            proof {
                lemma_jv_of_obj(*fields);
            }
            let ni = match find_field(fields, "name") {
                Option::Some(i) => i,
                Option::None => {
                    return Option::None;
                }
            };
            let name = match &fields[ni].1 {
                JsonValue::Str(t) => t.clone(),
                _ => {
                    proof {
                        crate::json::lemma_jv_of_kind(fields@[ni as int].1);
                    }
                    return Option::None;
                }
            };
            let vi = match find_field(fields, "value") {
                Option::Some(i) => i,
                Option::None => {
                    return Option::None;
                }
            };
            let value = crate::json::json_clone(&fields[vi].1);
            let li = match find_field(fields, "label") {
                Option::Some(i) => i,
                Option::None => {
                    return Option::None;
                }
            };
            let label = match &fields[li].1 {
                JsonValue::Str(t) => t.clone(),
                _ => {
                    proof {
                        crate::json::lemma_jv_of_kind(fields@[li as int].1);
                    }
                    return Option::None;
                }
            };
            let ti = match find_field(fields, "type") {
                Option::Some(i) => i,
                Option::None => {
                    return Option::None;
                }
            };
            let property_type = match &fields[ti].1 {
                JsonValue::Str(t) => t.clone(),
                _ => {
                    proof {
                        crate::json::lemma_jv_of_kind(fields@[ti as int].1);
                    }
                    return Option::None;
                }
            };
            let ci = match find_field(fields, "category") {
                Option::Some(i) => i,
                Option::None => {
                    return Option::None;
                }
            };
            let category = match &fields[ci].1 {
                JsonValue::Str(t) => t.clone(),
                _ => {
                    proof {
                        crate::json::lemma_jv_of_kind(fields@[ci as int].1);
                    }
                    return Option::None;
                }
            };
            let oi = match find_field(fields, "options") {
                Option::Some(i) => i,
                Option::None => {
                    return Option::None;
                }
            };
            let options = match json_to_opt_strs(&fields[oi].1) {
                Option::Some(o) => o,
                Option::None => {
                    return Option::None;
                }
            };
            let qi = match find_field(fields, "required") {
                Option::Some(i) => i,
                Option::None => {
                    return Option::None;
                }
            };
            let required = match json_to_opt_bool(&fields[qi].1) {
                Option::Some(o) => o,
                Option::None => {
                    return Option::None;
                }
            };
            let di = match find_field(fields, "description") {
                Option::Some(i) => i,
                Option::None => {
                    return Option::None;
                }
            };
            let description = match json_to_opt_str(&fields[di].1) {
                Option::Some(o) => o,
                Option::None => {
                    return Option::None;
                }
            };
            Option::Some(
                Property {
                    name,
                    value,
                    label,
                    property_type,
                    category,
                    options,
                    required,
                    description,
                },
            )
        }
        _ => Option::None,
    }
}

/// Decode a property list column.
pub fn json_to_props(j: &JsonValue) -> (r: Option<Vec<Property>>)
    ensures
        match r {
            Option::Some(ps) => jv_to_props(jv_of(*j)) == Option::Some(ps.deep_view()),
            Option::None => jv_to_props(jv_of(*j)) is None,
        },
{
    match j {
        JsonValue::Arr(xs) => {
            proof {
                lemma_jv_of_arr(*xs);
            }
            let ghost xd = xs.deep_view();
            let mut out: Vec<Property> = Vec::new();
            let mut i: usize = 0;
            while i < xs.len()
                invariant
                    i <= xs.len(),
                    xd == xs.deep_view(),
                    jv_of(*j) == Jv::Arr(xd),
                    out@.len() == i,
                    forall|k: int| 0 <= k < i ==> (#[trigger] jv_to_prop(xd[k])) is Some,
                    forall|k: int|
                        0 <= k < i ==> jv_to_prop(xd[k]) == Option::Some(out.deep_view()[k]),
                decreases xs.len() - i,
            {
                let p = match json_to_prop(&xs[i]) {
                    Option::Some(p) => p,
                    Option::None => {
                        proof {
                            assert(xd[i as int] == xs@[i as int].deep_view());
                            assert((#[trigger] jv_to_prop(xd[i as int])) is None);
                        }
                        return Option::None;
                    }
                };
                let ghost prev = out;
                out.push(p);
                i = i + 1;
                proof {
                    assert forall|k: int| 0 <= k < i implies jv_to_prop(xd[k]) == Option::Some(
                        out.deep_view()[k],
                    ) by {
                        if k < i - 1 {
                            assert(out@[k] == prev@[k]);
                            assert(jv_to_prop(xd[k]) == Option::Some(prev.deep_view()[k]));
                        } else {
                            assert(out.deep_view()[k] == out@[k].deep_view());
                        }
                    }
                }
            }
            proof {
                assert(out.deep_view() =~= Seq::new(xd.len(), |k: int| jv_to_prop(xd[k])->Some_0));
            }
            Option::Some(out)
        }
        _ => Option::None,
    }
}

/// Whether a stored value is exactly this string literal.
fn is_str_lit(v: &JsonValue, lit: &str) -> (b: bool)
    ensures
        b == (jv_of(*v) == Jv::Str(lit@)),
{
    match v {
        JsonValue::Str(t) => is_key(t, lit),
        _ => {
            proof {
                crate::json::lemma_jv_of_kind(*v);
            }
            false
        }
    }
}

/// Decode one content entry.
pub fn json_to_content(j: &JsonValue) -> (r: Option<Content>)
    ensures
        match r {
            Option::Some(c) => jv_to_content(jv_of(*j)) == Option::Some(c.deep_view()),
            Option::None => jv_to_content(jv_of(*j)) is None,
        },
    decreases j,
{
    match j {
        JsonValue::Obj(fields) => {
            proof {
                lemma_jv_of_obj(*fields);
            }
            let ti = match find_field(fields, "type") {
                Option::Some(i) => i,
                Option::None => {
                    return Option::None;
                }
            };
            let ci = match find_field(fields, "content") {
                Option::Some(i) => i,
                Option::None => {
                    return Option::None;
                }
            };
            if is_str_lit(&fields[ti].1, "text") {
                let t = match &fields[ci].1 {
                    JsonValue::Str(t) => t.clone(),
                    _ => {
                        proof {
                            crate::json::lemma_jv_of_kind(fields@[ci as int].1);
                            reveal_strlit("text");
                            reveal_strlit("element");
                            assert("text"@.len() != "element"@.len());
                        }
                        return Option::None;
                    }
                };
                Option::Some(Content::Text { content: t })
            } else if is_str_lit(&fields[ti].1, "element") {
                proof {
                    reveal_strlit("text");
                    reveal_strlit("element");
                    assert("text"@.len() != "element"@.len());
                    broadcast use vstd::std_specs::vec::axiom_vec_index_decreases;
                    assert(decreases_to!(*fields => fields@[ci as int]));
                }
                let e = match json_to_elem(&fields[ci].1) {
                    Option::Some(e) => e,
                    Option::None => {
                        return Option::None;
                    }
                };
                let res = Content::Element { content: e };
                proof {
                    assert(content_v(res) == ContentV::Element(elem_v(res->Element_content)));
                }
                Option::Some(res)
            } else {
                Option::None
            }
        }
        _ => Option::None,
    }
}

/// Decode a content list column.
pub fn json_to_contents(j: &JsonValue) -> (r: Option<Vec<Content>>)
    ensures
        match r {
            Option::Some(cs) => jv_to_contents(jv_of(*j)) == Option::Some(cs.deep_view()),
            Option::None => jv_to_contents(jv_of(*j)) is None,
        },
    decreases j,
{
    match j {
        JsonValue::Arr(xs) => {
            proof {
                lemma_jv_of_arr(*xs);
            }
            let ghost xd = xs.deep_view();
            let mut out: Vec<Content> = Vec::new();
            let mut i: usize = 0;
            proof {
                assert(xd.skip(0) =~= xd);
                assert forall|rest: Seq<ContentV>|
                    jv_parse_list(xd.skip(0)) == Option::Some(rest) implies jv_parse_list(xd)
                    == Option::Some(out.deep_view() + rest) by {
                    assert(out.deep_view() + rest =~= rest);
                }
            }
            while i < xs.len()
                invariant
                    i <= xs.len(),
                    *j == JsonValue::Arr(*xs),
                    xd == xs.deep_view(),
                    jv_of(*j) == Jv::Arr(xd),
                    out@.len() == i,
                    forall|rest: Seq<ContentV>|
                        jv_parse_list(xd.skip(i as int)) == Option::Some(rest) ==> jv_parse_list(
                            xd,
                        ) == Option::Some(out.deep_view() + rest),
                    jv_parse_list(xd.skip(i as int)) is None ==> jv_parse_list(xd) is None,
                decreases xs.len() - i,
            {
                let ghost pre = xd.skip(i as int);
                proof {
                    broadcast use vstd::std_specs::vec::axiom_vec_index_decreases;
                    assert(decreases_to!(*xs => xs@[i as int]));
                    assert(pre[0] == xd[i as int]);
                    assert(xd[i as int] == xs@[i as int].deep_view());
                    assert(pre.drop_first() =~= xd.skip(i + 1));
                }
                let c = match json_to_content(&xs[i]) {
                    Option::Some(c) => c,
                    Option::None => {
                        proof {
                            assert(jv_parse_list(pre) is None);
                        }
                        return Option::None;
                    }
                };
                let ghost prev = out.deep_view();
                let ghost cv = c.deep_view();
                out.push(c);
                i = i + 1;
                proof {
                    assert(out.deep_view() =~~= prev + seq![cv]);
                    assert forall|rest: Seq<ContentV>|
                        jv_parse_list(xd.skip(i as int)) == Option::Some(rest) implies
                        jv_parse_list(xd) == Option::Some(out.deep_view() + rest) by {
                        assert(jv_parse_list(pre) == Option::Some(seq![cv] + rest));
                        assert(out.deep_view() + rest =~= prev + (seq![cv] + rest));
                    }
                    if jv_parse_list(xd.skip(i as int)) is None {
                        assert(jv_parse_list(pre) is None);
                    }
                }
            }
            proof {
                assert(xd.skip(xd.len() as int) =~= Seq::<Jv>::empty());
                assert(jv_parse_list(xd.skip(xd.len() as int)) == Option::Some(
                    Seq::<ContentV>::empty(),
                ));
                assert(out.deep_view() + Seq::<ContentV>::empty() =~= out.deep_view());
            }
            Option::Some(out)
        }
        _ => Option::None,
    }
}

/// Decode one placed element.
pub fn json_to_elem(j: &JsonValue) -> (r: Option<ComponentElement>)
    ensures
        match r {
            Option::Some(e) => jv_to_elem(jv_of(*j)) == Option::Some(e.deep_view()),
            Option::None => jv_to_elem(jv_of(*j)) is None,
        },
    decreases j,
{
    match j {
        JsonValue::Obj(fields) => {
            proof {
                lemma_jv_of_obj(*fields);
            }
            let ii = match find_field(fields, "id") {
                Option::Some(i) => i,
                Option::None => {
                    return Option::None;
                }
            };
            let id = match &fields[ii].1 {
                JsonValue::Int(n) => *n,
                _ => {
                    proof {
                        crate::json::lemma_jv_of_kind(fields@[ii as int].1);
                    }
                    return Option::None;
                }
            };
            let pi = match find_field(fields, "properties") {
                Option::Some(i) => i,
                Option::None => {
                    return Option::None;
                }
            };
            let properties = match json_to_props(&fields[pi].1) {
                Option::Some(ps) => ps,
                Option::None => {
                    return Option::None;
                }
            };
            let ci = match find_field(fields, "content") {
                Option::Some(i) => i,
                Option::None => {
                    return Option::None;
                }
            };
            proof {
                broadcast use vstd::std_specs::vec::axiom_vec_index_decreases;
                assert(decreases_to!(*fields => fields@[ci as int]));
            }
            let content = match json_to_contents(&fields[ci].1) {
                Option::Some(cs) => cs,
                Option::None => {
                    return Option::None;
                }
            };
            let ti = match find_field(fields, "type") {
                Option::Some(i) => i,
                Option::None => {
                    return Option::None;
                }
            };
            proof {
                broadcast use vstd::std_specs::vec::axiom_vec_index_decreases;
                assert(decreases_to!(*fields => fields@[ti as int]));
            }
            let element_type = match json_to_comp(&fields[ti].1) {
                Option::Some(c) => c,
                Option::None => {
                    return Option::None;
                }
            };
            let res = ComponentElement { id, properties, content, element_type };
            proof {
                crate::models::lemma_elem_v_content(res);
            }
            Option::Some(res)
        }
        _ => Option::None,
    }
}

/// Decode one catalog component row's JSON columns as one object.
pub fn json_to_comp(j: &JsonValue) -> (r: Option<Component>)
    ensures
        match r {
            Option::Some(c) => jv_to_comp(jv_of(*j)) == Option::Some(c.deep_view()),
            Option::None => jv_to_comp(jv_of(*j)) is None,
        },
    decreases j,
{
    match j {
        JsonValue::Obj(fields) => {
            proof {
                lemma_jv_of_obj(*fields);
            }
            let ii = match find_field(fields, "id") {
                Option::Some(i) => i,
                Option::None => {
                    return Option::None;
                }
            };
            let id = match &fields[ii].1 {
                JsonValue::Int(n) => *n,
                _ => {
                    proof {
                        crate::json::lemma_jv_of_kind(fields@[ii as int].1);
                    }
                    return Option::None;
                }
            };
            let ni = match find_field(fields, "name") {
                Option::Some(i) => i,
                Option::None => {
                    return Option::None;
                }
            };
            let name = match &fields[ni].1 {
                JsonValue::Str(t) => t.clone(),
                _ => {
                    proof {
                        crate::json::lemma_jv_of_kind(fields@[ni as int].1);
                    }
                    return Option::None;
                }
            };
            let ci = match find_field(fields, "icon") {
                Option::Some(i) => i,
                Option::None => {
                    return Option::None;
                }
            };
            let icon = match &fields[ci].1 {
                JsonValue::Str(t) => t.clone(),
                _ => {
                    proof {
                        crate::json::lemma_jv_of_kind(fields@[ci as int].1);
                    }
                    return Option::None;
                }
            };
            let gi = match find_field(fields, "category") {
                Option::Some(i) => i,
                Option::None => {
                    return Option::None;
                }
            };
            let category = match &fields[gi].1 {
                JsonValue::Str(t) => t.clone(),
                _ => {
                    proof {
                        crate::json::lemma_jv_of_kind(fields@[gi as int].1);
                    }
                    return Option::None;
                }
            };
            let di = match find_field(fields, "description") {
                Option::Some(i) => i,
                Option::None => {
                    return Option::None;
                }
            };
            let description = match json_to_opt_str(&fields[di].1) {
                Option::Some(o) => o,
                Option::None => {
                    return Option::None;
                }
            };
            let pi = match find_field(fields, "properties") {
                Option::Some(i) => i,
                Option::None => {
                    return Option::None;
                }
            };
            let properties = match json_to_props(&fields[pi].1) {
                Option::Some(ps) => ps,
                Option::None => {
                    return Option::None;
                }
            };
            let bi = match find_field(fields, "canContainContent") {
                Option::Some(i) => i,
                Option::None => {
                    return Option::None;
                }
            };
            let can_contain_content = match &fields[bi].1 {
                JsonValue::Bool(b) => *b,
                _ => {
                    proof {
                        crate::json::lemma_jv_of_kind(fields@[bi as int].1);
                    }
                    return Option::None;
                }
            };
            let fi = match find_field(fields, "defaultContent") {
                Option::Some(i) => i,
                Option::None => {
                    return Option::None;
                }
            };
            proof {
                broadcast use vstd::std_specs::vec::axiom_vec_index_decreases;
                assert(decreases_to!(*fields => fields@[fi as int]));
            }
            let default_content = match json_to_contents(&fields[fi].1) {
                Option::Some(cs) => cs,
                Option::None => {
                    return Option::None;
                }
            };
            let si = match find_field(fields, "tags") {
                Option::Some(i) => i,
                Option::None => {
                    return Option::None;
                }
            };
            let tags = match json_to_opt_strs(&fields[si].1) {
                Option::Some(o) => o,
                Option::None => {
                    return Option::None;
                }
            };
            let res = Component {
                id,
                name,
                icon,
                category,
                description,
                properties,
                can_contain_content,
                default_content,
                tags,
            };
            proof {
                crate::models::lemma_comp_v_default_content(res);
            }
            Option::Some(res)
        }
        _ => Option::None,
    }
}

/// Decode the elements column.
pub fn json_to_elements(j: &JsonValue) -> (r: Option<Vec<ComponentElement>>)
    ensures
        match r {
            Option::Some(es) => jv_to_elements(jv_of(*j)) == Option::Some(es.deep_view()),
            Option::None => jv_to_elements(jv_of(*j)) is None,
        },
{
    match j {
        JsonValue::Arr(xs) => {
            proof {
                lemma_jv_of_arr(*xs);
            }
            let ghost xd = xs.deep_view();
            let mut out: Vec<ComponentElement> = Vec::new();
            let mut i: usize = 0;
            while i < xs.len()
                invariant
                    i <= xs.len(),
                    xd == xs.deep_view(),
                    jv_of(*j) == Jv::Arr(xd),
                    out@.len() == i,
                    forall|k: int| 0 <= k < i ==> (#[trigger] jv_to_elem(xd[k])) is Some,
                    forall|k: int|
                        0 <= k < i ==> jv_to_elem(xd[k]) == Option::Some(out.deep_view()[k]),
                decreases xs.len() - i,
            {
                let e = match json_to_elem(&xs[i]) {
                    Option::Some(e) => e,
                    Option::None => {
                        proof {
                            assert(xd[i as int] == xs@[i as int].deep_view());
                            assert((#[trigger] jv_to_elem(xd[i as int])) is None);
                        }
                        return Option::None;
                    }
                };
                let ghost prev = out;
                out.push(e);
                i = i + 1;
                proof {
                    assert forall|k: int| 0 <= k < i implies jv_to_elem(xd[k]) == Option::Some(
                        out.deep_view()[k],
                    ) by {
                        if k < i - 1 {
                            assert(out@[k] == prev@[k]);
                            assert(jv_to_elem(xd[k]) == Option::Some(prev.deep_view()[k]));
                        } else {
                            assert(out.deep_view()[k] == out@[k].deep_view());
                        }
                    }
                }
            }
            proof {
                assert(out.deep_view() =~= Seq::new(xd.len(), |k: int| jv_to_elem(xd[k])->Some_0));
            }
            Option::Some(out)
        }
        _ => Option::None,
    }
}

} // verus!
