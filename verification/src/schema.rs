//! Checking tool arguments against the schema of the tool.
use vstd::prelude::*;

use crate::json::{entries_view, group_json_views, list_view, maybe_ref, Json, JsonView};
use crate::numbers::{decimal, decimal_text, signed_decimal, signed_decimal_text};
use crate::ordered::lookup;
use crate::std_text::{quote, quoted};
use crate::text::{join, join_of, lemma_texts_push, same, texts};

verus! {

// ---------------------------------------------------------------------------
// Specifications
// ---------------------------------------------------------------------------

/// The entries of an object, none of any other value.
pub open spec fn entries_of(v: Option<JsonView>) -> Seq<(Seq<char>, JsonView)> {
    match v {
        Some(JsonView::Object(e)) => e,
        _ => Seq::empty(),
    }
}

/// The schemas of the properties that a schema lists.
pub open spec fn properties_of(schema: JsonView) -> Seq<(Seq<char>, JsonView)> {
    entries_of(schema.get("properties"@))
}

/// The schema allows no property but those it lists.
pub open spec fn is_closed(schema: JsonView) -> bool {
    schema.get("additionalProperties"@) == Some(JsonView::Bool(false))
}

/// The first of the required names that `obj` lacks.
pub open spec fn first_missing(required: Seq<JsonView>, obj: Seq<(Seq<char>, JsonView)>) -> Option<Seq<char>>
    decreases required.len(),
{
    if required.len() == 0 {
        None
    } else {
        match required[0] {
            JsonView::Str(k) => if lookup(obj, k) is None {
                Some(k)
            } else {
                first_missing(required.skip(1), obj)
            },
            _ => first_missing(required.skip(1), obj),
        }
    }
}

/// The names in `obj` that `props` lacks, each in quotes.
pub open spec fn extras(obj: Seq<(Seq<char>, JsonView)>, props: Seq<(Seq<char>, JsonView)>) -> Seq<Seq<char>>
    decreases obj.len(),
{
    if obj.len() == 0 {
        Seq::empty()
    } else if lookup(props, obj.last().0) is None {
        extras(obj.drop_last(), props).push(quoted(obj.last().0))
    } else {
        extras(obj.drop_last(), props)
    }
}

/// The first fault among the entries of an object.
pub open spec fn entries_fault(
    obj: Seq<(Seq<char>, JsonView)>,
    props: Seq<(Seq<char>, JsonView)>,
    path: Seq<char>,
) -> Option<Seq<char>>
    decreases obj,
{
    if obj.len() == 0 {
        None
    } else {
        let first = match lookup(props, obj[0].0) {
            Some(sub) => fault_of(sub, obj[0].1, path + "."@ + obj[0].0),
            None => None,
        };
        match first {
            Some(f) => Some(f),
            None => entries_fault(obj.skip(1), props, path),
        }
    }
}

/// The first fault among the items of an array, the first of which has number `index`.
pub open spec fn items_fault(items: Seq<JsonView>, schema: JsonView, path: Seq<char>, index: nat) -> Option<Seq<char>>
    decreases items,
{
    if items.len() == 0 {
        None
    } else {
        match fault_of(schema, items[0], path + "["@ + decimal(index) + "]"@) {
            Some(f) => Some(f),
            None => items_fault(items.skip(1), schema, path, index + 1),
        }
    }
}

/// What is wrong with a value under a schema, if anything is. `path` says where the
/// value stands.
pub open spec fn fault_of(schema: JsonView, value: JsonView, path: Seq<char>) -> Option<Seq<char>>
    decreases value,
{
    match schema.get_str("type"@) {
        None => None,
        Some(t) => if t == "object"@ {
            match value {
                JsonView::Object(obj) => {
                    let missing = match schema.get_array("required"@) {
                        Some(required) => first_missing(required, obj),
                        None => None,
                    };
                    let more = extras(obj, properties_of(schema));
                    match missing {
                        Some(k) => Some("missing required argument "@ + quoted(k)),
                        None => if is_closed(schema) && more.len() > 0 {
                            Some("unexpected argument(s): "@ + join_of(more, ", "@))
                        } else {
                            entries_fault(obj, properties_of(schema), path)
                        },
                    }
                },
                _ => Some(path + " must be an object"@),
            }
        } else if t == "array"@ {
            match value {
                JsonView::Array(items) => match schema.get_u64("minItems"@) {
                    Some(n) if items.len() < n => Some(
                        path + " must contain at least "@ + decimal(n as nat) + " item(s)"@,
                    ),
                    _ => match schema.get("items"@) {
                        Some(sub) => items_fault(items, sub, path, 0),
                        None => None,
                    },
                },
                _ => Some(path + " must be an array"@),
            }
        } else if t == "string"@ {
            if value is Str {
                None
            } else {
                Some(path + " must be a string"@)
            }
        } else if t == "integer"@ {
            if value.as_i64() is None && value.as_u64() is None {
                Some(path + " must be an integer"@)
            } else {
                match schema.get_i64("minimum"@) {
                    Some(least) if (match value.as_i64() {
                        Some(n) => n < least,
                        None => i64::MIN < least,
                    }) => Some(path + " must be >= "@ + signed_decimal(least)),
                    _ => None,
                }
            }
        } else {
            None
        },
    }
}

/// The value is as the schema asks.
pub open spec fn conforms(schema: JsonView, value: JsonView) -> bool
    decreases value,
{
    match schema.get_str("type"@) {
        None => true,
        Some(t) => if t == "object"@ {
            match value {
                JsonView::Object(obj) => {
                    &&& match schema.get_array("required"@) {
                        Some(required) => forall|i: int|
                            0 <= i < required.len() ==> (#[trigger] required[i] matches JsonView::Str(k) ==> lookup(
                                obj,
                                k,
                            ) is Some),
                        None => true,
                    }
                    &&& is_closed(schema) ==> forall|i: int|
                        0 <= i < obj.len() ==> lookup(properties_of(schema), (#[trigger] obj[i]).0) is Some
                    &&& forall|i: int|
                        0 <= i < obj.len() ==> (lookup(properties_of(schema), (#[trigger] obj[i]).0) matches Some(
                            sub,
                        ) ==> conforms(sub, obj[i].1))
                },
                _ => false,
            }
        } else if t == "array"@ {
            match value {
                JsonView::Array(items) => {
                    &&& schema.get_u64("minItems"@) matches Some(n) ==> items.len() >= n
                    &&& schema.get("items"@) matches Some(sub) ==> forall|i: int|
                        0 <= i < items.len() ==> conforms(sub, #[trigger] items[i])
                },
                _ => false,
            }
        } else if t == "string"@ {
            value is Str
        } else if t == "integer"@ {
            &&& value.as_i64() is Some || value.as_u64() is Some
            &&& schema.get_i64("minimum"@) matches Some(least) ==> match value.as_i64() {
                Some(n) => n >= least,
                None => least == i64::MIN,
            }
        } else {
            true
        },
    }
}

// ---------------------------------------------------------------------------
// Functions
// ---------------------------------------------------------------------------

/// The first of the required names that `obj` lacks.
fn find_missing(required: &Vec<Json>, obj: &Json) -> (r: Option<String>)
    requires
        obj@ is Object,
    ensures
        match r {
            Some(k) => first_missing(list_view(required@), obj@->Object_0) == Some(k@),
            None => first_missing(list_view(required@), obj@->Object_0) is None,
        },
{
    let ghost all = list_view(required@);
    let ghost e = obj@->Object_0;
    assert(all.skip(0) =~= all);
    for i in 0..required.len()
        invariant
            all == list_view(required@),
            obj@ == JsonView::Object(e),
            first_missing(all, e) == first_missing(all.skip(i as int), e),
    {
        proof {
            assert(all.skip(i as int)[0] == required@[i as int]@);
            assert(all.skip(i as int).skip(1) =~= all.skip(i + 1));
        }
        if let Some(k) = required[i].as_str() {
            if obj.get(k).is_none() {
                return Some(String::from_str(k));
            }
        }
    }
    assert(all.skip(required@.len() as int) =~= Seq::empty());
    None
}

/// The names in `obj` that `props` lacks, each in quotes.
fn find_extras(obj: &Vec<(String, Json)>, props: Option<&Json>) -> (r: Vec<String>)
    ensures
        texts(r@) == extras(entries_view(obj@), entries_of(maybe_ref(props))),
{
    let ghost e = entries_view(obj@);
    let ghost p = entries_of(maybe_ref(props));
    let mut out: Vec<String> = Vec::new();
    assert(texts(out@) =~= extras(e.take(0), p));
    for i in 0..obj.len()
        invariant
            e == entries_view(obj@),
            p == entries_of(maybe_ref(props)),
            texts(out@) == extras(e.take(i as int), p),
    {
        let key = obj[i].0.as_str();
        proof {
            assert(e.take(i + 1).drop_last() =~= e.take(i as int));
            assert(e.take(i + 1).last() == (obj@[i as int].0@, obj@[i as int].1@));
        }
        if property(props, key).is_none() {
            let q = quote(key);
            proof { lemma_texts_push(out@, q); }
            out.push(q);
        }
    }
    assert(e.take(obj@.len() as int) =~= e);
    out
}

/// The schema of one property.
fn property<'a>(props: Option<&'a Json>, key: &str) -> (r: Option<&'a Json>)
    ensures
        match r {
            Some(j) => lookup(entries_of(maybe_ref(props)), key@) == Some(j@),
            None => lookup(entries_of(maybe_ref(props)), key@) is None,
        },
{
    match props {
        Some(p) => p.get(key),
        None => None,
    }
}

/// Whether the schema allows no property but those it lists.
fn closed_schema(schema: &Json) -> (r: bool)
    ensures
        r == is_closed(schema@),
{
    match schema.get("additionalProperties") {
        Some(Json::Bool(b)) => !*b,
        _ => false,
    }
}

/// What is wrong with a value under a schema, if anything is. `path` says where the
/// value stands.
pub fn validate_schema_value(schema: &Json, value: &Json, path: &str) -> (r: Option<String>)
    ensures
        match r {
            Some(f) => fault_of(schema@, value@, path@) == Some(f@),
            None => fault_of(schema@, value@, path@) is None,
        },
    decreases value,
{
    broadcast use group_json_views;

    let kind = match schema.get_str("type") {
        Some(t) => t,
        None => {
            return None;
        },
    };
    if same(kind, "object") {
        match value {
            Json::Object(obj) => {
                let ghost e = entries_view(obj@);
                assert(value@->Object_0 =~= e);
                if let Some(required) = schema.get_array("required") {
                    if let Some(k) = find_missing(required, value) {
                        let mut out = String::from_str("missing required argument ");
                        out.append(quote(k.as_str()).as_str());
                        return Some(out);
                    }
                }
                let props = schema.get("properties");
                let ghost p = properties_of(schema@);
                if closed_schema(schema) {
                    let more = find_extras(obj, props);
                    if more.len() > 0 {
                        assert(texts(more@).len() > 0);
                        let mut out = String::from_str("unexpected argument(s): ");
                        out.append(join(&more, ", ").as_str());
                        return Some(out);
                    }
                    assert(texts(more@).len() == 0);
                }
                assert(e.skip(0) =~= e);
                for i in 0..obj.len()
                    invariant
                        e == entries_view(obj@),
                        p == properties_of(schema@),
                        p == entries_of(maybe_ref(props)),
                        value matches Json::Object(w) && w == obj,
                        fault_of(schema@, value@, path@) == entries_fault(e.skip(i as int), p, path@),
                {
                    let key = obj[i].0.as_str();
                    proof {
                        assert(e.skip(i as int)[0] == (obj@[i as int].0@, obj@[i as int].1@));
                        assert(e.skip(i as int).skip(1) =~= e.skip(i + 1));
                    }
                    if let Some(sub) = property(props, key) {
                        let mut at = String::from_str(path);
                        at.append(".");
                        at.append(key);
                        let fault = validate_schema_value(sub, &obj[i].1, at.as_str());
                        if fault.is_some() {
                            return fault;
                        }
                    }
                }
                assert(e.skip(obj@.len() as int) =~= Seq::empty());
                None
            },
            _ => {
                let mut out = String::from_str(path);
                out.append(" must be an object");
                Some(out)
            },
        }
    } else if same(kind, "array") {
        match value {
            Json::Array(items) => {
                let ghost a = list_view(items@);
                assert(value@->Array_0 =~= a);
                if let Some(least) = schema.get_u64("minItems") {
                    if (items.len() as u64) < least {
                        let mut out = String::from_str(path);
                        out.append(" must contain at least ");
                        out.append(decimal_text(least).as_str());
                        out.append(" item(s)");
                        return Some(out);
                    }
                }
                if let Some(sub) = schema.get("items") {
                    assert(a.skip(0) =~= a);
                    for i in 0..items.len()
                        invariant
                            a == list_view(items@),
                            value matches Json::Array(w) && w == items,
                            fault_of(schema@, value@, path@) == items_fault(a.skip(i as int), sub@, path@, i as nat),
                    {
                        proof {
                            assert(a.skip(i as int)[0] == items@[i as int]@);
                            assert(a.skip(i as int).skip(1) =~= a.skip(i + 1));
                        }
                        let mut at = String::from_str(path);
                        at.append("[");
                        at.append(decimal_text(i as u64).as_str());
                        at.append("]");
                        let fault = validate_schema_value(sub, &items[i], at.as_str());
                        if fault.is_some() {
                            return fault;
                        }
                    }
                    assert(a.skip(items@.len() as int) =~= Seq::empty());
                }
                None
            },
            _ => {
                let mut out = String::from_str(path);
                out.append(" must be an array");
                Some(out)
            },
        }
    } else if same(kind, "string") {
        match value {
            Json::Str(_) => None,
            _ => {
                let mut out = String::from_str(path);
                out.append(" must be a string");
                Some(out)
            },
        }
    } else if same(kind, "integer") {
        let signed = value.as_i64();
        if signed.is_none() && value.as_u64().is_none() {
            let mut out = String::from_str(path);
            out.append(" must be an integer");
            return Some(out);
        }
        if let Some(least) = schema.get_i64("minimum") {
            let n = match signed {
                Some(n) => n,
                None => i64::MIN,
            };
            if n < least {
                let mut out = String::from_str(path);
                out.append(" must be >= ");
                out.append(signed_decimal_text(least).as_str());
                return Some(out);
            }
        }
        None
    } else {
        None
    }
}

// ---------------------------------------------------------------------------
// Laws
// ---------------------------------------------------------------------------

/// Nothing is wrong with a value exactly where it is as the schema asks, wherever
/// it stands.
pub proof fn law_faultless_iff_conforming(schema: JsonView, value: JsonView, path: Seq<char>)
    ensures
        fault_of(schema, value, path) is None <==> conforms(schema, value),
    decreases value,
{
    match value {
        JsonView::Object(obj) => {
            let props = properties_of(schema);
            lemma_entries(obj, props, path);
            lemma_extras(obj, props);
            match schema.get_array("required"@) {
                Some(required) => {
                    lemma_missing(required, obj);
                },
                None => {},
            }
        },
        JsonView::Array(items) => {
            match schema.get("items"@) {
                Some(sub) => {
                    lemma_items(items, sub, path, 0);
                },
                None => {},
            }
        },
        _ => {},
    }
}

proof fn lemma_missing(required: Seq<JsonView>, obj: Seq<(Seq<char>, JsonView)>)
    ensures
        first_missing(required, obj) is None <==> forall|i: int|
            0 <= i < required.len() ==> (#[trigger] required[i] matches JsonView::Str(k) ==> lookup(obj, k) is Some),
    decreases required.len(),
{
    if required.len() > 0 {
        let rest = required.skip(1);
        lemma_missing(rest, obj);
        assert forall|i: int| 0 <= i < rest.len() implies rest[i] == #[trigger] required[i + 1] by {}
        if first_missing(required, obj) is None {
            assert forall|i: int| 0 <= i < required.len() implies (#[trigger] required[i] matches JsonView::Str(k)
                ==> lookup(obj, k) is Some) by {
                if i > 0 {
                    assert(rest[i - 1] == required[i]);
                }
            }
        } else if first_missing(rest, obj) is Some {
            let i = choose|i: int|
                0 <= i < rest.len() && !(#[trigger] rest[i] matches JsonView::Str(k) ==> lookup(obj, k) is Some);
            assert(rest[i] == required[i + 1]);
        }
    }
}

proof fn lemma_extras(obj: Seq<(Seq<char>, JsonView)>, props: Seq<(Seq<char>, JsonView)>)
    ensures
        extras(obj, props).len() == 0 <==> forall|i: int|
            0 <= i < obj.len() ==> lookup(props, (#[trigger] obj[i]).0) is Some,
    decreases obj.len(),
{
    if obj.len() > 0 {
        let rest = obj.drop_last();
        lemma_extras(rest, props);
        if extras(obj, props).len() == 0 {
            assert forall|i: int| 0 <= i < obj.len() implies lookup(props, (#[trigger] obj[i]).0) is Some by {
                if i < rest.len() {
                    assert(rest[i] == obj[i]);
                }
            }
        } else if extras(rest, props).len() > 0 {
            let i = choose|i: int| 0 <= i < rest.len() && !(lookup(props, (#[trigger] rest[i]).0) is Some);
            assert(rest[i] == obj[i]);
        } else {
            assert(obj[obj.len() - 1] == obj.last());
        }
    }
}

proof fn lemma_entries(obj: Seq<(Seq<char>, JsonView)>, props: Seq<(Seq<char>, JsonView)>, path: Seq<char>)
    ensures
        entries_fault(obj, props, path) is None <==> forall|i: int|
            0 <= i < obj.len() ==> (lookup(props, (#[trigger] obj[i]).0) matches Some(sub) ==> conforms(sub, obj[i].1)),
    decreases obj,
{
    if obj.len() > 0 {
        let rest = obj.skip(1);
        match lookup(props, obj[0].0) {
            Some(sub) => {
                law_faultless_iff_conforming(sub, obj[0].1, path + "."@ + obj[0].0);
            },
            None => {},
        }
        lemma_entries(rest, props, path);
        if entries_fault(obj, props, path) is None {
            assert forall|i: int| 0 <= i < obj.len() implies (lookup(props, (#[trigger] obj[i]).0) matches Some(sub)
                ==> conforms(sub, obj[i].1)) by {
                if i > 0 {
                    assert(rest[i - 1] == obj[i]);
                }
            }
        } else if entries_fault(rest, props, path) is Some {
            let i = choose|i: int|
                0 <= i < rest.len() && !(lookup(props, (#[trigger] rest[i]).0) matches Some(sub) ==> conforms(
                    sub,
                    rest[i].1,
                ));
            assert(rest[i] == obj[i + 1]);
        }
    }
}

proof fn lemma_items(items: Seq<JsonView>, schema: JsonView, path: Seq<char>, index: nat)
    ensures
        items_fault(items, schema, path, index) is None <==> forall|i: int|
            0 <= i < items.len() ==> conforms(schema, #[trigger] items[i]),
    decreases items,
{
    if items.len() > 0 {
        let rest = items.skip(1);
        law_faultless_iff_conforming(schema, items[0], path + "["@ + decimal(index) + "]"@);
        lemma_items(rest, schema, path, index + 1);
        if items_fault(items, schema, path, index) is None {
            assert forall|i: int| 0 <= i < items.len() implies conforms(schema, #[trigger] items[i]) by {
                if i > 0 {
                    assert(rest[i - 1] == items[i]);
                }
            }
        } else if items_fault(rest, schema, path, index + 1) is Some {
            let i = choose|i: int| 0 <= i < rest.len() && !conforms(schema, #[trigger] rest[i]);
            assert(rest[i] == items[i + 1]);
        }
    }
}

/// The names of the types that a schema can ask for differ.
proof fn lemma_types_differ()
    ensures
        "object"@ != "array"@ && "object"@ != "string"@ && "object"@ != "integer"@,
        "array"@ != "string"@ && "array"@ != "integer"@ && "string"@ != "integer"@,
{
    reveal_strlit("object");
    reveal_strlit("array");
    reveal_strlit("string");
    reveal_strlit("integer");
    assert("object"@[0] == 'o' && "array"@[0] == 'a' && "string"@[0] == 's' && "integer"@[0] == 'i');
}

/// What a schema asks of an object: that it is one, has all that is required, has nothing
/// that is not listed where the schema is closed, and that each property that is listed is
/// as its own schema asks.
pub proof fn law_object_conforms_iff(schema: JsonView, value: JsonView)
    requires
        schema.get_str("type"@) == Some("object"@),
    ensures
        conforms(schema, value) <==> {
            &&& value is Object
            &&& schema.get_array("required"@) matches Some(required) ==> forall|i: int|
                0 <= i < required.len() ==> (#[trigger] required[i] matches JsonView::Str(k) ==> value.get(k) is Some)
            &&& schema.get("additionalProperties"@) == Some(JsonView::Bool(false)) ==> forall|i: int|
                0 <= i < value->Object_0.len() ==> property_of(schema, (#[trigger] value->Object_0[i]).0) is Some
            &&& forall|i: int|
                0 <= i < value->Object_0.len() ==> (property_of(schema, (#[trigger] value->Object_0[i]).0) matches Some(
                    sub,
                ) ==> conforms(sub, value->Object_0[i].1))
        },
{
}

/// The schema of a property, where one is listed.
pub open spec fn property_of(schema: JsonView, name: Seq<char>) -> Option<JsonView> {
    match schema.get("properties"@) {
        Some(p) => p.get(name),
        None => None,
    }
}

/// What a schema asks of other values: an array has as many items as it must, each as the
/// schema of the items asks; a text is a text; a whole number is one, and is no smaller
/// than the least.
pub proof fn law_other_values_conform_iff(schema: JsonView, value: JsonView)
    ensures
        schema.get_str("type"@) == Some("array"@) ==> (conforms(schema, value) <==> {
            &&& value is Array
            &&& schema.get_u64("minItems"@) matches Some(n) ==> value->Array_0.len() >= n
            &&& schema.get("items"@) matches Some(sub) ==> forall|i: int|
                0 <= i < value->Array_0.len() ==> conforms(sub, #[trigger] value->Array_0[i])
        }),
        schema.get_str("type"@) == Some("string"@) ==> (conforms(schema, value) <==> value is Str),
        schema.get_str("type"@) == Some("integer"@) ==> (conforms(schema, value) <==> {
            &&& value.as_i64() is Some || value.as_u64() is Some
            &&& schema.get_i64("minimum"@) matches Some(least) ==> (value.as_i64() matches Some(n) ==> n >= least)
            &&& schema.get_i64("minimum"@) matches Some(least) ==> (value.as_i64() is None ==> least == i64::MIN)
        }),
        schema.get_str("type"@) is None ==> conforms(schema, value),
{
    lemma_types_differ();
}

/// Of the required names that are missing the first is told.
pub proof fn law_first_missing_is_told(required: Seq<JsonView>, obj: Seq<(Seq<char>, JsonView)>, i: int)
    requires
        0 <= i < required.len(),
        forall|k: int|
            0 <= k < i ==> (#[trigger] required[k] matches JsonView::Str(name) ==> lookup(obj, name) is Some),
    ensures
        required[i] matches JsonView::Str(name) && lookup(obj, name) is None ==> first_missing(required, obj) == Some(
            required[i]->Str_0,
        ),
    decreases i,
{
    if i > 0 {
        let rest = required.skip(1);
        assert(required[0] matches JsonView::Str(name) ==> lookup(obj, name) is Some);
        assert forall|k: int| 0 <= k < i - 1 implies (#[trigger] rest[k] matches JsonView::Str(name) ==> lookup(obj, name)
            is Some) by {
            assert(rest[k] == required[k + 1]);
        }
        assert(rest[i - 1] == required[i]);
        law_first_missing_is_told(rest, obj, i - 1);
    }
}

/// All names that are not listed are told, in order.
pub proof fn law_all_extras_are_told(obj: Seq<(Seq<char>, JsonView)>, props: Seq<(Seq<char>, JsonView)>)
    ensures
        extras(obj, props) == obj.filter_map(
            |e: (Seq<char>, JsonView)|
                if lookup(props, e.0) is None {
                    Some(quoted(e.0))
                } else {
                    None
                },
        ),
    decreases obj.len(),
{
    if obj.len() > 0 {
        law_all_extras_are_told(obj.drop_last(), props);
    }
}

/// Of the faults among the entries of an object, and among the items of an array, the
/// first is told; where the first ones have none, that of the others is. The items are
/// numbered on.
pub proof fn law_first_fault_is_told(
    a: Seq<(Seq<char>, JsonView)>,
    b: Seq<(Seq<char>, JsonView)>,
    props: Seq<(Seq<char>, JsonView)>,
    path: Seq<char>,
)
    ensures
        entries_fault(a, props, path) is Some ==> entries_fault(a + b, props, path) == entries_fault(a, props, path),
        entries_fault(a, props, path) is None ==> entries_fault(a + b, props, path) == entries_fault(b, props, path),
        b.len() == 1 ==> entries_fault(b, props, path) == (match lookup(props, b[0].0) {
            Some(sub) => fault_of(sub, b[0].1, path + "."@ + b[0].0),
            None => None,
        }),
    decreases a.len(),
{
    if b.len() == 1 {
        assert(b.skip(1) =~= Seq::empty());
        assert(entries_fault(b.skip(1), props, path) is None);
    }
    if a.len() == 0 {
        assert(a + b =~= b);
    } else {
        assert((a + b)[0] == a[0]);
        assert((a + b).skip(1) =~= a.skip(1) + b);
        law_first_fault_is_told(a.skip(1), b, props, path);
    }
}

/// As of entries, so of items.
pub proof fn law_first_item_fault_is_told(
    a: Seq<JsonView>,
    b: Seq<JsonView>,
    schema: JsonView,
    path: Seq<char>,
    index: nat,
)
    ensures
        items_fault(a, schema, path, index) is Some ==> items_fault(a + b, schema, path, index) == items_fault(
            a,
            schema,
            path,
            index,
        ),
        items_fault(a, schema, path, index) is None ==> items_fault(a + b, schema, path, index) == items_fault(
            b,
            schema,
            path,
            index + a.len(),
        ),
        b.len() == 1 ==> items_fault(b, schema, path, index) == fault_of(
            schema,
            b[0],
            path + "["@ + decimal(index) + "]"@,
        ),
    decreases a.len(),
{
    if b.len() == 1 {
        assert(b.skip(1) =~= Seq::empty());
        assert(items_fault(b.skip(1), schema, path, index + 1) is None);
    }
    if a.len() == 0 {
        assert(a + b =~= b);
    } else {
        assert((a + b)[0] == a[0]);
        assert((a + b).skip(1) =~= a.skip(1) + b);
        law_first_item_fault_is_told(a.skip(1), b, schema, path, index + 1);
    }
}

/// A fault is told in words that name the place and what is asked there.
pub proof fn law_faults_are_told(schema: JsonView, value: JsonView, path: Seq<char>)
    ensures
        schema.get_str("type"@) == Some("object"@) && !(value is Object) ==> fault_of(schema, value, path) == Some(
            path + " must be an object"@,
        ),
        schema.get_str("type"@) == Some("array"@) && !(value is Array) ==> fault_of(schema, value, path) == Some(
            path + " must be an array"@,
        ),
        schema.get_str("type"@) == Some("array"@) && (value matches JsonView::Array(items) && (schema.get_u64("minItems"@)
            matches Some(n) && items.len() < n)) ==> fault_of(schema, value, path) == Some(
            path + " must contain at least "@ + decimal(schema.get_u64("minItems"@)->0 as nat) + " item(s)"@,
        ),
        schema.get_str("type"@) == Some("string"@) && !(value is Str) ==> fault_of(schema, value, path) == Some(
            path + " must be a string"@,
        ),
        schema.get_str("type"@) == Some("integer"@) && value.as_i64() is None && value.as_u64() is None ==> fault_of(
            schema,
            value,
            path,
        ) == Some(path + " must be an integer"@),
        schema.get_str("type"@) == Some("integer"@) && (value.as_i64() matches Some(n) && (schema.get_i64("minimum"@)
            matches Some(least) && n < least)) ==> fault_of(schema, value, path) == Some(
            path + " must be >= "@ + signed_decimal(schema.get_i64("minimum"@)->0),
        ),
        schema.get_str("type"@) == Some("object"@) && (value matches JsonView::Object(obj) && (schema.get_array(
            "required"@,
        ) matches Some(required) && first_missing(required, obj) is Some)) ==> fault_of(schema, value, path) == Some(
            "missing required argument "@ + quoted(
                first_missing(schema.get_array("required"@)->0, value->Object_0)->0,
            ),
        ),
{
    lemma_types_differ();
}

} // verus!
