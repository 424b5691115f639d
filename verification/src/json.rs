use vstd::prelude::*;

verus! {


/// An open structured value: the JSON tree a stored column can hold.
#[derive(Debug)]
pub enum JsonValue {
    Null,
    Bool(bool),
    Int(i64),
    Num(String),
    Str(String),
    Arr(Vec<JsonValue>),
    Obj(Vec<(String, JsonValue)>),
}

/// Mathematical model of a `JsonValue`.
pub enum Jv {
    Null,
    Bool(bool),
    Int(i64),
    Num(Seq<char>),
    Str(Seq<char>),
    Arr(Seq<Jv>),
    Obj(Seq<(Seq<char>, Jv)>),
}

/// Mathematical value of a `JsonValue`, field by field and element by element.
pub open spec fn jv_of(v: JsonValue) -> Jv
    decreases v,
    via jv_of_decreases
{
    match v {
        JsonValue::Null => Jv::Null,
        JsonValue::Bool(b) => Jv::Bool(b),
        JsonValue::Int(n) => Jv::Int(n),
        JsonValue::Num(s) => Jv::Num(s@),
        JsonValue::Str(s) => Jv::Str(s@),
        JsonValue::Arr(items) => Jv::Arr(
            Seq::new(
                items@.len(),
                |i: int| if 0 <= i < items@.len() { jv_of(items@[i]) } else { Jv::Null },
            ),
        ),
        JsonValue::Obj(fields) => Jv::Obj(
            Seq::new(
                fields@.len(),
                |i: int|
                    if 0 <= i < fields@.len() {
                        (fields@[i].0@, jv_of(fields@[i].1))
                    } else {
                        (Seq::empty(), Jv::Null)
                    },
            ),
        ),
    }
}

#[via_fn]
proof fn jv_of_decreases(v: JsonValue) {
    broadcast use vstd::std_specs::vec::axiom_vec_index_decreases;
    match v {
        JsonValue::Arr(items) => {
            assert forall|i: int| 0 <= i < items@.len() implies decreases_to!(v => items@[i]) by {
                assert(decreases_to!(v => items));
                assert(decreases_to!(items => items@[i]));
            }
        }
        JsonValue::Obj(fields) => {
            assert forall|i: int| 0 <= i < fields@.len() implies decreases_to!(v => fields@[i].1) by {
                assert(decreases_to!(v => fields));
                assert(decreases_to!(fields => fields@[i]));
                assert(decreases_to!(fields@[i] => fields@[i].1));
            }
        }
        _ => {}
    }
}


/// The kind of a value's model matches the kind of the value.
pub proof fn lemma_jv_of_kind(v: JsonValue)
    ensures
        jv_of(v) is Null <==> v is Null,
        jv_of(v) is Bool <==> v is Bool,
        jv_of(v) is Int <==> v is Int,
        jv_of(v) is Num <==> v is Num,
        jv_of(v) is Str <==> v is Str,
        jv_of(v) is Arr <==> v is Arr,
        jv_of(v) is Obj <==> v is Obj,
{
}

impl DeepView for JsonValue {
    type V = Jv;

    open spec fn deep_view(&self) -> Jv {
        jv_of(*self)
    }
}

pub proof fn lemma_jv_of_arr(items: Vec<JsonValue>)
    ensures
        jv_of(JsonValue::Arr(items)) == Jv::Arr(items.deep_view()),
{
    assert(jv_of(JsonValue::Arr(items))->Arr_0 =~~= items.deep_view());
}

pub proof fn lemma_jv_of_obj(fields: Vec<(String, JsonValue)>)
    ensures
        jv_of(JsonValue::Obj(fields)) == Jv::Obj(fields.deep_view()),
{
    assert(jv_of(JsonValue::Obj(fields))->Obj_0 =~~= fields.deep_view());
}

#[verifier::loop_isolation(false)]
pub fn json_clone(v: &JsonValue) -> (r: JsonValue)
    ensures
        r.deep_view() == v.deep_view(),
    decreases v,
{
    match v {
        JsonValue::Null => JsonValue::Null,
        JsonValue::Bool(b) => JsonValue::Bool(*b),
        JsonValue::Int(n) => JsonValue::Int(*n),
        JsonValue::Num(s) => JsonValue::Num(s.clone()),
        JsonValue::Str(s) => JsonValue::Str(s.clone()),
        JsonValue::Arr(items) => {
            let mut out: Vec<JsonValue> = Vec::new();
            let mut i: usize = 0;
            while i < items.len()
                invariant
                    i <= items.len(),
                    out.deep_view() =~~= items.deep_view().take(i as int),
                decreases items.len() - i,
            {
                proof {
                    broadcast use vstd::std_specs::vec::axiom_vec_index_decreases;
                    assert(decreases_to!(*items => items@[i as int]));
                }
                out.push(json_clone(&items[i]));
                i = i + 1;
                assert(out.deep_view() =~~= items.deep_view().take(i as int));
            }
            assert(items.deep_view().take(items@.len() as int) =~~= items.deep_view());
            proof {
                lemma_jv_of_arr(out);
                lemma_jv_of_arr(*items);
                assert(out.deep_view() =~~= items.deep_view());
            }
            JsonValue::Arr(out)
        }
        JsonValue::Obj(fields) => {
            let mut out: Vec<(String, JsonValue)> = Vec::new();
            let mut i: usize = 0;
            while i < fields.len()
                invariant
                    i <= fields.len(),
                    out.deep_view() =~~= fields.deep_view().take(i as int),
                decreases fields.len() - i,
            {
                proof {
                    broadcast use vstd::std_specs::vec::axiom_vec_index_decreases;
                    assert(decreases_to!(*fields => fields@[i as int]));
                }
                let key = fields[i].0.clone();
                let val = json_clone(&fields[i].1);
                out.push((key, val));
                i = i + 1;
                assert(out.deep_view() =~~= fields.deep_view().take(i as int));
            }
            assert(fields.deep_view().take(fields@.len() as int) =~~= fields.deep_view());
            proof {
                lemma_jv_of_obj(out);
                lemma_jv_of_obj(*fields);
                assert(out.deep_view() =~~= fields.deep_view());
            }
            JsonValue::Obj(out)
        }
    }
}

/// Whether two values model the same JSON tree.
#[verifier::loop_isolation(false)]
pub fn json_eq(a: &JsonValue, b: &JsonValue) -> (r: bool)
    ensures
        r == (jv_of(*a) == jv_of(*b)),
    decreases a,
{
    match (a, b) {
        (JsonValue::Null, JsonValue::Null) => true,
        (JsonValue::Bool(x), JsonValue::Bool(y)) => *x == *y,
        (JsonValue::Int(x), JsonValue::Int(y)) => *x == *y,
        (JsonValue::Num(x), JsonValue::Num(y)) => *x == *y,
        (JsonValue::Str(x), JsonValue::Str(y)) => *x == *y,
        (JsonValue::Arr(xs), JsonValue::Arr(ys)) => {
            proof {
                lemma_jv_of_arr(*xs);
                lemma_jv_of_arr(*ys);
            }
            if xs.len() != ys.len() {
                proof {
                    assert(xs.deep_view().len() == xs@.len());
                    assert(ys.deep_view().len() == ys@.len());
                }
                return false;
            }
            let mut i: usize = 0;
            while i < xs.len()
                invariant
                    i <= xs.len(),
                    xs@.len() == ys@.len(),
                    forall|k: int|
                        0 <= k < i ==> (#[trigger] xs.deep_view()[k]) == ys.deep_view()[k],
                decreases xs.len() - i,
            {
                proof {
                    broadcast use vstd::std_specs::vec::axiom_vec_index_decreases;
                    assert(decreases_to!(*xs => xs@[i as int]));
                }
                if !json_eq(&xs[i], &ys[i]) {
                    proof {
                        assert(xs.deep_view()[i as int] != ys.deep_view()[i as int]);
                    }
                    return false;
                }
                proof {
                    assert(xs.deep_view()[i as int] == ys.deep_view()[i as int]);
                }
                i = i + 1;
            }
            proof {
                assert(xs.deep_view() =~= ys.deep_view());
            }
            true
        }
        (JsonValue::Obj(xs), JsonValue::Obj(ys)) => {
            proof {
                lemma_jv_of_obj(*xs);
                lemma_jv_of_obj(*ys);
            }
            if xs.len() != ys.len() {
                proof {
                    assert(xs.deep_view().len() == xs@.len());
                    assert(ys.deep_view().len() == ys@.len());
                }
                return false;
            }
            let mut i: usize = 0;
            while i < xs.len()
                invariant
                    i <= xs.len(),
                    xs@.len() == ys@.len(),
                    forall|k: int|
                        0 <= k < i ==> (#[trigger] xs.deep_view()[k]) == ys.deep_view()[k],
                decreases xs.len() - i,
            {
                proof {
                    broadcast use vstd::std_specs::vec::axiom_vec_index_decreases;
                    assert(decreases_to!(*xs => xs@[i as int]));
                    assert(decreases_to!(xs@[i as int] => xs@[i as int].1));
                }
                if !(xs[i].0 == ys[i].0) {
                    proof {
                        assert(xs.deep_view()[i as int].0 != ys.deep_view()[i as int].0);
                    }
                    return false;
                }
                if !json_eq(&xs[i].1, &ys[i].1) {
                    proof {
                        assert(xs.deep_view()[i as int].1 != ys.deep_view()[i as int].1);
                    }
                    return false;
                }
                proof {
                    assert(xs.deep_view()[i as int] == ys.deep_view()[i as int]);
                }
                i = i + 1;
            }
            proof {
                assert(xs.deep_view() =~= ys.deep_view());
            }
            true
        }
        _ => {
            proof {
                lemma_jv_of_kind(*a);
                lemma_jv_of_kind(*b);
            }
            false
        }
    }
}

} // verus!
