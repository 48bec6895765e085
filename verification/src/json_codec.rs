//! JSON values as text, and as values of the crate `serde_json`.
use vstd::prelude::*;

use crate::json::{entries_view, group_json_views, list_view, normal_entries, number_view, Json, JsonView};
use crate::ordered::put_all;

verus! {

/// The type of JSON values of the crate `serde_json`.
#[verifier::external_type_specification]
#[verifier::external_body]
pub struct ExValue(serde_json::Value);

/// What a value of `serde_json::Value` says: its variant, with what that holds;
/// an object lists its entries as its iterator gives them, by key.
pub uninterp spec fn value_view(v: serde_json::Value) -> JsonView;

/// What `serde_json::from_str` makes of a text: the value, or the error's message.
pub uninterp spec fn json_parse(text: Seq<char>) -> Result<JsonView, Seq<char>>;

/// The text reads as the value.
pub open spec fn reads_as(text: Seq<char>, v: JsonView) -> bool {
    json_parse(text) matches Ok(w) && w == v
}

/// No character comes before the space: the text is one line without tabs.
pub open spec fn is_one_line(s: Seq<char>) -> bool {
    forall|i: int| 0 <= i < s.len() ==> ' ' <= #[trigger] s[i]
}

/// What `serde_json::to_string` writes of a value.
pub uninterp spec fn json_text(v: JsonView) -> Seq<char>;

/// What `serde_json::to_string_pretty` writes of a value.
pub uninterp spec fn json_pretty(v: JsonView) -> Seq<char>;

/// The outermost layer of a JSON value.
pub enum Layer {
    Null,
    Bool(bool),
    Num(serde_json::Number),
    Str(String),
    Array(Vec<serde_json::Value>),
    Object(Vec<(String, serde_json::Value)>),
}

/// What a list of `serde_json` values says.
pub open spec fn values_view(v: Seq<serde_json::Value>) -> Seq<JsonView> {
    v.map_values(|x: serde_json::Value| value_view(x))
}

/// What a list of entries of `serde_json` values says.
pub open spec fn value_entries_view(v: Seq<(String, serde_json::Value)>) -> Seq<(Seq<char>, JsonView)> {
    v.map_values(|e: (String, serde_json::Value)| (e.0@, value_view(e.1)))
}

impl Layer {
    /// What the layer says.
    pub open spec fn view(&self) -> JsonView {
        match self {
            Layer::Null => JsonView::Null,
            Layer::Bool(b) => JsonView::Bool(*b),
            Layer::Num(n) => JsonView::Num(number_view(*n)),
            Layer::Str(s) => JsonView::Str(s@),
            Layer::Array(v) => JsonView::Array(values_view(v@)),
            Layer::Object(v) => JsonView::Object(value_entries_view(v@)),
        }
    }
}

/// Takes a `serde_json::Value` apart by its variants.
#[verifier::external_body]
fn peel(v: serde_json::Value) -> (r: Layer)
    ensures
        r@ == value_view(v),
{
    match v {
        serde_json::Value::Null => Layer::Null,
        serde_json::Value::Bool(b) => Layer::Bool(b),
        serde_json::Value::Number(n) => Layer::Num(n),
        serde_json::Value::String(s) => Layer::Str(s),
        serde_json::Value::Array(a) => Layer::Array(a),
        serde_json::Value::Object(o) => Layer::Object(o.into_iter().collect()),
    }
}

/// Puts a `serde_json::Value` together from its variant. The entries of an object
/// are collected into `serde_json`'s map, which keeps each key once, in order,
/// with the last value given for it.
#[verifier::external_body]
fn wrap(layer: Layer) -> (r: serde_json::Value)
    ensures
        match layer@ {
            JsonView::Object(e) => value_view(r) == JsonView::Object(put_all(e)),
            other => value_view(r) == other,
        },
{
    match layer {
        Layer::Null => serde_json::Value::Null,
        Layer::Bool(b) => serde_json::Value::Bool(b),
        Layer::Num(n) => serde_json::Value::Number(n),
        Layer::Str(s) => serde_json::Value::String(s),
        Layer::Array(a) => serde_json::Value::Array(a),
        Layer::Object(o) => serde_json::Value::Object(o.into_iter().collect()),
    }
}

/// `serde_json::from_str` into a value; an error becomes its message.
#[verifier::external_body]
fn read_value(text: &str) -> (r: Result<serde_json::Value, String>)
    ensures
        match r {
            Ok(v) => (json_parse(text@) matches Ok(w) && w == value_view(v)),
            Err(e) => (json_parse(text@) matches Err(w) && w == e@),
        },
{
    serde_json::from_str::<serde_json::Value>(text).map_err(|e| e.to_string())
}

/// `serde_json::to_string` of a value, which never fails. The text is one line: every
/// character before the space is escaped. The character behind the tilde is written as
/// it is, and nowhere but where a text of the value holds it. A value without fractions whose arrays and
/// objects nest no deeper than `serde_json` reads them comes back from the text as it
/// was.
#[verifier::external_body]
fn write_value(v: &serde_json::Value) -> (r: String)
    ensures
        r@ == json_text(value_view(*v)),
        is_one_line(r@),
        value_view(*v).free_of('\u{7f}') ==> !r@.contains('\u{7f}'),
        value_view(*v).plain(READ_DEPTH as nat) ==> reads_as(r@, value_view(*v)),
{
    serde_json::to_string(v).unwrap_or_default()
}

/// `serde_json::to_string_pretty` of a value, which never fails.
#[verifier::external_body]
fn write_value_pretty(v: &serde_json::Value) -> (r: String)
    ensures
        r@ == json_pretty(value_view(*v)),
{
    serde_json::to_string_pretty(v).unwrap_or_default()
}

/// How many arrays and objects may stand one inside the other for the reader.
pub const READ_DEPTH: u8 = 127;

/// The compact JSON text of a value.
pub open spec fn compact(v: JsonView) -> Seq<char> {
    json_text(v.normal())
}

/// The compact JSON text of the value is one line, holds the character behind the
/// tilde only where the value does, and the value comes back from it where it has no
/// fractions and does not nest too deep.
pub open spec fn is_written(v: JsonView) -> bool {
    &&& is_one_line(compact(v))
    &&& v.normal().free_of('\u{7f}') ==> !compact(v).contains('\u{7f}')
    &&& v.normal().plain(READ_DEPTH as nat) ==> reads_as(compact(v), v.normal())
}

/// The indented JSON text of a value.
pub open spec fn indented(v: JsonView) -> Seq<char> {
    json_pretty(v.normal())
}

/// A `serde_json::Value` as a JSON value of the library.
pub fn from_value(v: serde_json::Value) -> (r: Json)
    ensures
        r@ == value_view(v),
    decreases value_view(v),
{
    broadcast use group_json_views;

    match peel(v) {
        Layer::Null => Json::Null,
        Layer::Bool(b) => Json::Bool(b),
        Layer::Num(n) => Json::Num(n),
        Layer::Str(s) => Json::Str(s),
        Layer::Array(items) => {
            let ghost all = values_view(items@);
            let mut out: Vec<Json> = Vec::new();
            for item in it: items
                invariant
                    it.seq() == items@,
                    all == values_view(items@),
                    value_view(v) == JsonView::Array(all),
                    list_view(out@) == all.take(it.index()),
            {
                proof {
                    assert(all[it.index()] == value_view(item));
                    assert(decreases_to!(value_view(v) => value_view(v)->Array_0));
                    assert(decreases_to!(value_view(v)->Array_0 => value_view(v)->Array_0[it.index()]));
                }
                out.push(from_value(item));
                assert(all.take(it.index() + 1) =~= all.take(it.index()).push(value_view(item)));
            }
            assert(all.take(all.len() as int) =~= all);
            Json::Array(out)
        },
        Layer::Object(items) => {
            let ghost all = value_entries_view(items@);
            let mut out: Vec<(String, Json)> = Vec::new();
            for item in it: items
                invariant
                    it.seq() == items@,
                    all == value_entries_view(items@),
                    value_view(v) == JsonView::Object(all),
                    entries_view(out@) == all.take(it.index()),
            {
                proof {
                    assert(all[it.index()] == (item.0@, value_view(item.1)));
                    assert(decreases_to!(value_view(v) => value_view(v)->Object_0));
                    assert(decreases_to!(value_view(v)->Object_0 => value_view(v)->Object_0[it.index()]));
                    assert(decreases_to!(value_view(v)->Object_0[it.index()] => value_view(v)->Object_0[it.index()].1));
                }
                let (key, value) = item;
                out.push((key, from_value(value)));
                assert(all.take(it.index() + 1) =~= all.take(it.index()).push((item.0@, value_view(item.1))));
            }
            assert(all.take(all.len() as int) =~= all);
            Json::Object(out)
        },
    }
}

/// A JSON value of the library as a `serde_json::Value`.
pub fn to_value(j: &Json) -> (r: serde_json::Value)
    ensures
        value_view(r) == j@.normal(),
    decreases j,
{
    match j {
        Json::Null => wrap(Layer::Null),
        Json::Bool(b) => wrap(Layer::Bool(*b)),
        Json::Num(n) => wrap(Layer::Num(n.clone())),
        Json::Str(s) => wrap(Layer::Str(s.clone())),
        Json::Array(v) => {
            let mut out: Vec<serde_json::Value> = Vec::new();
            for i in 0..v.len()
                invariant
                    out@.len() == i,
                    forall|k: int| 0 <= k < i ==> value_view(#[trigger] out@[k]) == v@[k]@.normal(),
                    j matches Json::Array(w) && w == v,
            {
                out.push(to_value(&v[i]));
            }
            assert(values_view(out@) =~= j@.normal()->Array_0);
            wrap(Layer::Array(out))
        },
        Json::Object(v) => {
            let mut out: Vec<(String, serde_json::Value)> = Vec::new();
            let ghost e = entries_view(v@);
            assert(value_entries_view(out@) =~= normal_entries(e.take(0)));
            for i in 0..v.len()
                invariant
                    e == entries_view(v@),
                    value_entries_view(out@) == normal_entries(e.take(i as int)),
                    j matches Json::Object(w) && w == v,
            {
                let ghost before = out@;
                let new = (v[i].0.clone(), to_value(&v[i].1));
                proof {
                    assert(e.take(i + 1).drop_last() =~= e.take(i as int));
                    assert(e.take(i + 1).last() == (v@[i as int].0@, v@[i as int].1@));
                    assert(value_entries_view(before.push(new)) =~= value_entries_view(before).push(
                        (new.0@, value_view(new.1)),
                    ));
                }
                out.push(new);
            }
            assert(e.take(v@.len() as int) =~= e);
            assert(j@->Object_0 =~= e);
            wrap(Layer::Object(out))
        },
    }
}

/// Reads a JSON text; an error is given by its message.
pub fn parse_json(text: &str) -> (r: Result<Json, String>)
    ensures
        match r {
            Ok(j) => (json_parse(text@) matches Ok(w) && w == j@),
            Err(e) => (json_parse(text@) matches Err(w) && w == e@),
        },
{
    match read_value(text) {
        Ok(v) => Ok(from_value(v)),
        Err(e) => Err(e),
    }
}

/// Writes a value as compact JSON text.
pub fn compact_text(j: &Json) -> (r: String)
    ensures
        r@ == compact(j@),
        is_written(j@),
{
    write_value(&to_value(j))
}

/// Writes a value as indented JSON text.
pub fn indented_text(j: &Json) -> (r: String)
    ensures
        r@ == indented(j@),
{
    write_value_pretty(&to_value(j))
}

} // verus!
