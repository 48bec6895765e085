//! JSON values: what the agent, its tools and the model exchange.
use vstd::prelude::*;

use crate::ordered::{comes_before, keys_ascend, lemma_put_all_ascending, lookup, put, put_all};
use crate::text::same;

verus! {

/// The type of JSON numbers of the crate `serde_json`.
#[verifier::external_type_specification]
#[verifier::external_body]
pub struct ExNumber(serde_json::Number);

/// A JSON number: a whole number, or else the shortest numeral that reads as it.
pub enum NumberView {
    Int(int),
    Float(Seq<char>),
}

/// The number that a value of `serde_json::Number` stands for: whole where it
/// holds an integer, else the text that its `Display` writes.
pub uninterp spec fn number_view(n: serde_json::Number) -> NumberView;

/// The number as `Display` writes it once it is turned into a binary fraction of
/// 64 bits, with the given count of digits behind the point.
pub uninterp spec fn fixed_point(n: NumberView, digits: nat) -> Seq<char>;

/// The numeral of the binary fraction of 64 bits that is nearest to a number.
pub uninterp spec fn nearest_fraction(n: NumberView) -> Seq<char>;

/// `serde_json::Number::clone` copies the number.
pub assume_specification[ <serde_json::Number as Clone>::clone ](n: &serde_json::Number) -> (r: serde_json::Number)
    ensures
        number_view(r) == number_view(*n),
;

/// `serde_json::Number::as_i64` gives the integer that the number holds, where it
/// holds one that fits.
pub assume_specification[ serde_json::Number::as_i64 ](n: &serde_json::Number) -> (r: Option<i64>)
    ensures
        match r {
            Some(i) => JsonView::Num(number_view(*n)).as_i64() == Some(i as int),
            None => JsonView::Num(number_view(*n)).as_i64() is None,
        },
;

/// `serde_json::Number::as_u64` gives the integer that the number holds, where it
/// holds one that fits.
pub assume_specification[ serde_json::Number::as_u64 ](n: &serde_json::Number) -> (r: Option<u64>)
    ensures
        match r {
            Some(u) => JsonView::Num(number_view(*n)).as_u64() == Some(u as int),
            None => JsonView::Num(number_view(*n)).as_u64() is None,
        },
;

/// `serde_json::Number::from` a `u64` holds that integer.
#[verifier::external_body]
fn number_of_unsigned(n: u64) -> (r: serde_json::Number)
    ensures
        number_view(r) == NumberView::Int(n as int),
{
    serde_json::Number::from(n)
}

/// `serde_json::Number::from` an `i64` holds that integer.
#[verifier::external_body]
fn number_of_signed(n: i64) -> (r: serde_json::Number)
    ensures
        number_view(r) == NumberView::Int(n as int),
{
    serde_json::Number::from(n)
}

/// Formats what `serde_json::Number::as_f64` gives, with a fixed count of digits, which
/// the format takes up to 65535 of.
#[verifier::external_body]
pub(crate) fn fixed_point_text(n: &serde_json::Number, digits: usize) -> (r: String)
    requires
        digits <= u16::MAX,
    ensures
        r@ == fixed_point(number_view(*n), digits as nat),
{
    format!("{:.*}", digits, n.as_f64().unwrap_or_default())
}

/// Turns a number into a fraction: `serde_json::Number::from_f64` of what
/// `serde_json::Number::as_f64` gives, which is always finite. The result holds
/// no integer.
#[verifier::external_body]
pub(crate) fn fraction_of(n: &serde_json::Number) -> (r: serde_json::Number)
    ensures
        number_view(r) == NumberView::Float(nearest_fraction(number_view(*n))),
{
    serde_json::Number::from_f64(n.as_f64().unwrap_or_default()).unwrap_or(n.clone())
}

/// A JSON value. An object lists its entries by key, in order.
pub enum Json {
    Null,
    Bool(bool),
    Num(serde_json::Number),
    Str(String),
    Array(Vec<Json>),
    Object(Vec<(String, Json)>),
}

/// What a JSON value says.
pub enum JsonView {
    Null,
    Bool(bool),
    Num(NumberView),
    Str(Seq<char>),
    Array(Seq<JsonView>),
    Object(Seq<(Seq<char>, JsonView)>),
}

impl Json {
    /// What the value says.
    pub open spec fn view(&self) -> JsonView
        decreases self,
    {
        match self {
            Json::Null => JsonView::Null,
            Json::Bool(b) => JsonView::Bool(*b),
            Json::Num(n) => JsonView::Num(number_view(*n)),
            Json::Str(s) => JsonView::Str(s@),
            Json::Array(v) => JsonView::Array(
                Seq::new(
                    v@.len(),
                    |i: int|
                        if 0 <= i < v@.len() {
                            v@[i].view()
                        } else {
                            arbitrary()
                        },
                ),
            ),
            Json::Object(v) => JsonView::Object(
                Seq::new(
                    v@.len(),
                    |i: int|
                        if 0 <= i < v@.len() {
                            (v@[i].0@, v@[i].1.view())
                        } else {
                            arbitrary()
                        },
                ),
            ),
        }
    }
}

/// What a list of values says.
pub open spec fn list_view(v: Seq<Json>) -> Seq<JsonView> {
    v.map_values(|j: Json| j@)
}

/// What a list of entries says.
pub open spec fn entries_view(v: Seq<(String, Json)>) -> Seq<(Seq<char>, JsonView)> {
    v.map_values(|e: (String, Json)| (e.0@, e.1@))
}

/// What an array says.
pub broadcast proof fn lemma_array_view(v: Vec<Json>)
    ensures
        #[trigger] Json::Array(v)@ == JsonView::Array(list_view(v@)),
{
    assert(Json::Array(v)@->Array_0 =~= list_view(v@));
}

/// What an object says.
pub broadcast proof fn lemma_object_view(v: Vec<(String, Json)>)
    ensures
        #[trigger] Json::Object(v)@ == JsonView::Object(entries_view(v@)),
{
    assert(Json::Object(v)@->Object_0 =~= entries_view(v@));
}

/// Adding a value to a list adds what it says.
pub broadcast proof fn lemma_list_push(v: Seq<Json>, j: Json)
    ensures
        #[trigger] list_view(v.push(j)) == list_view(v).push(j@),
{
    assert(list_view(v.push(j)) =~= list_view(v).push(j@));
}

/// Adding an entry to a list adds what it says.
pub broadcast proof fn lemma_entries_push(v: Seq<(String, Json)>, e: (String, Json))
    ensures
        #[trigger] entries_view(v.push(e)) == entries_view(v).push((e.0@, e.1@)),
{
    assert(entries_view(v.push(e)) =~= entries_view(v).push((e.0@, e.1@)));
}

/// What lists of values and entries say, piece by piece.
pub broadcast group group_json_views {
    lemma_array_view,
    lemma_object_view,
    lemma_list_push,
    lemma_entries_push,
}

impl JsonView {
    /// The value under `key`, where this is an object that has it.
    pub open spec fn get(self, key: Seq<char>) -> Option<JsonView> {
        match self {
            JsonView::Object(e) => lookup(e, key),
            _ => None,
        }
    }

    /// The text, where this is a text.
    pub open spec fn as_str(self) -> Option<Seq<char>> {
        match self {
            JsonView::Str(s) => Some(s),
            _ => None,
        }
    }

    /// The number, where this is a whole number of 64 bits with a sign.
    pub open spec fn as_i64(self) -> Option<int> {
        match self {
            JsonView::Num(NumberView::Int(n)) => if i64::MIN <= n <= i64::MAX {
                Some(n)
            } else {
                None
            },
            _ => None,
        }
    }

    /// The number, where this is a whole number of 64 bits without a sign.
    pub open spec fn as_u64(self) -> Option<int> {
        match self {
            JsonView::Num(NumberView::Int(n)) => if 0 <= n <= u64::MAX {
                Some(n)
            } else {
                None
            },
            _ => None,
        }
    }

    /// The entries, where this is an array.
    pub open spec fn as_array(self) -> Option<Seq<JsonView>> {
        match self {
            JsonView::Array(a) => Some(a),
            _ => None,
        }
    }

    /// The text under `key`, where this is an object that has one there.
    pub open spec fn get_str(self, key: Seq<char>) -> Option<Seq<char>> {
        match self.get(key) {
            Some(v) => v.as_str(),
            None => None,
        }
    }

    /// The text under `key`, or the empty text.
    pub open spec fn text_at(self, key: Seq<char>) -> Seq<char> {
        match self.get_str(key) {
            Some(s) => s,
            None => Seq::empty(),
        }
    }

    /// The signed number under `key`.
    pub open spec fn get_i64(self, key: Seq<char>) -> Option<int> {
        match self.get(key) {
            Some(v) => v.as_i64(),
            None => None,
        }
    }

    /// The unsigned number under `key`.
    pub open spec fn get_u64(self, key: Seq<char>) -> Option<int> {
        match self.get(key) {
            Some(v) => v.as_u64(),
            None => None,
        }
    }

    /// The array under `key`.
    pub open spec fn get_array(self, key: Seq<char>) -> Option<Seq<JsonView>> {
        match self.get(key) {
            Some(v) => v.as_array(),
            None => None,
        }
    }

    /// The object with `value` under `key`.
    pub open spec fn with(self, key: Seq<char>, value: JsonView) -> JsonView {
        match self {
            JsonView::Object(e) => JsonView::Object(put(e, key, value)),
            _ => self,
        }
    }

    /// Every object in the value lists each key once, in order.
    pub open spec fn canonical(self) -> bool
        decreases self,
    {
        match self {
            JsonView::Array(a) => forall|i: int| 0 <= i < a.len() ==> (#[trigger] a[i]).canonical(),
            JsonView::Object(e) => {
                &&& keys_ascend(e)
                &&& forall|i: int| 0 <= i < e.len() ==> (#[trigger] e[i]).1.canonical()
            },
            _ => true,
        }
    }
}

/// What a value says, where there is one.
pub open spec fn maybe(j: Option<Json>) -> Option<JsonView> {
    match j {
        Some(j) => Some(j@),
        None => None,
    }
}

/// What a value says, where there is one.
pub open spec fn maybe_ref(j: Option<&Json>) -> Option<JsonView> {
    match j {
        Some(j) => Some(j@),
        None => None,
    }
}

/// The value, or null where there is none.
pub open spec fn or_null(v: Option<JsonView>) -> JsonView {
    match v {
        Some(v) => v,
        None => JsonView::Null,
    }
}

/// A text, or null where there is none.
pub open spec fn text_or_null(s: Option<Seq<char>>) -> JsonView {
    match s {
        Some(s) => JsonView::Str(s),
        None => JsonView::Null,
    }
}

/// A whole number as a value.
pub open spec fn whole(n: int) -> JsonView {
    JsonView::Num(NumberView::Int(n))
}

/// The value, or null where there is none.
pub fn copy_or_null(j: Option<&Json>) -> (r: Json)
    ensures
        r@ == or_null(maybe_ref(j)),
{
    match j {
        Some(j) => j.copy(),
        None => Json::Null,
    }
}

/// An entry of an object.
pub fn entry(key: &str, value: Json) -> (r: (String, Json))
    ensures
        r.0@ == key@,
        r.1@ == value@,
{
    (String::from_str(key), value)
}

/// A text as a JSON value.
pub fn text_value(s: &str) -> (r: Json)
    ensures
        r@ == JsonView::Str(s@),
{
    Json::Str(String::from_str(s))
}

/// A whole number as a JSON value.
pub fn number_value(n: u64) -> (r: Json)
    ensures
        r@ == whole(n as int),
{
    Json::Num(number_of_unsigned(n))
}

/// A whole number with a sign as a JSON value.
pub fn signed_value(n: i64) -> (r: Json)
    ensures
        r@ == whole(n as int),
{
    Json::Num(number_of_signed(n))
}

/// An object of the given entries.
pub fn object(v: Vec<(String, Json)>) -> (r: Json)
    ensures
        r@ == JsonView::Object(entries_view(v@)),
{
    broadcast use group_json_views;

    Json::Object(v)
}

/// An array of the given values.
pub fn array(v: Vec<Json>) -> (r: Json)
    ensures
        r@ == JsonView::Array(list_view(v@)),
{
    broadcast use group_json_views;

    Json::Array(v)
}

/// A copy of a list of values.
pub fn copy_list(v: &Vec<Json>) -> (r: Vec<Json>)
    ensures
        list_view(r@) == list_view(v@),
{
    let mut out: Vec<Json> = Vec::new();
    for i in 0..v.len()
        invariant
            out@.len() == i,
            forall|k: int| 0 <= k < i ==> (#[trigger] out@[k])@ == v@[k]@,
    {
        out.push(v[i].copy());
    }
    assert(list_view(out@) =~= list_view(v@));
    out
}

impl Json {
    /// A copy of the value.
    pub fn copy(&self) -> (r: Json)
        ensures
            r@ == self@,
        decreases self,
    {
        match self {
            Json::Null => Json::Null,
            Json::Bool(b) => Json::Bool(*b),
            Json::Num(n) => Json::Num(n.clone()),
            Json::Str(s) => Json::Str(s.clone()),
            Json::Array(v) => {
                let mut out: Vec<Json> = Vec::new();
                for i in 0..v.len()
                    invariant
                        out@.len() == i,
                        forall|k: int| 0 <= k < i ==> (#[trigger] out@[k])@ == v@[k]@,
                        self matches Json::Array(w) && w == v,
                {
                    out.push(v[i].copy());
                }
                assert(Json::Array(out)@->Array_0 =~= self@->Array_0);
                Json::Array(out)
            },
            Json::Object(v) => {
                let mut out: Vec<(String, Json)> = Vec::new();
                for i in 0..v.len()
                    invariant
                        out@.len() == i,
                        forall|k: int| 0 <= k < i ==> (#[trigger] out@[k]).0@ == v@[k].0@ && out@[k].1@ == v@[k].1@,
                        self matches Json::Object(w) && w == v,
                {
                    out.push((v[i].0.clone(), v[i].1.copy()));
                }
                assert(Json::Object(out)@->Object_0 =~= self@->Object_0);
                Json::Object(out)
            },
        }
    }

    /// The value under `key`, where this is an object that has it.
    pub fn get(&self, key: &str) -> (r: Option<&Json>)
        ensures
            match r {
                Some(j) => self@.get(key@) == Some(j@),
                None => self@.get(key@) is None,
            },
    {
        match self {
            Json::Object(v) => {
                let ghost e = self@->Object_0;
                assert(e =~= entries_view(v@));
                assert(e.skip(0) =~= e);
                for i in 0..v.len()
                    invariant
                        e == entries_view(v@),
                        self@ == JsonView::Object(e),
                        lookup(e, key@) == lookup(e.skip(i as int), key@),
                {
                    assert(e[i as int] == (v@[i as int].0@, v@[i as int].1@));
                    if same(v[i].0.as_str(), key) {
                        return Some(&v[i].1);
                    }
                    assert(e.skip(i as int).skip(1) =~= e.skip(i + 1));
                }
                assert(e.skip(v@.len() as int) =~= Seq::empty());
                None
            },
            _ => None,
        }
    }

    /// Whether this is an object.
    pub fn is_object(&self) -> (r: bool)
        ensures
            r == (self@ is Object),
    {
        match self {
            Json::Object(_) => true,
            _ => false,
        }
    }

    /// The text, where this is a text.
    pub fn as_str(&self) -> (r: Option<&str>)
        ensures
            match r {
                Some(s) => self@.as_str() == Some(s@),
                None => self@.as_str() is None,
            },
    {
        match self {
            Json::Str(s) => Some(s.as_str()),
            _ => None,
        }
    }

    /// The number, where this is a whole number of 64 bits with a sign.
    pub fn as_i64(&self) -> (r: Option<i64>)
        ensures
            match r {
                Some(n) => self@.as_i64() == Some(n as int),
                None => self@.as_i64() is None,
            },
    {
        match self {
            Json::Num(n) => n.as_i64(),
            _ => None,
        }
    }

    /// The number, where this is a whole number of 64 bits without a sign.
    pub fn as_u64(&self) -> (r: Option<u64>)
        ensures
            match r {
                Some(n) => self@.as_u64() == Some(n as int),
                None => self@.as_u64() is None,
            },
    {
        match self {
            Json::Num(n) => n.as_u64(),
            _ => None,
        }
    }

    /// The entries, where this is an array.
    pub fn as_array(&self) -> (r: Option<&Vec<Json>>)
        ensures
            match r {
                Some(v) => self@.as_array() == Some(list_view(v@)),
                None => self@.as_array() is None,
            },
    {
        broadcast use group_json_views;

        match self {
            Json::Array(v) => {
                assert(self@->Array_0 =~= list_view(v@));
                Some(v)
            },
            _ => None,
        }
    }

    /// The text under `key`, where this is an object that has one there.
    pub fn get_str(&self, key: &str) -> (r: Option<&str>)
        ensures
            match r {
                Some(s) => self@.get_str(key@) == Some(s@),
                None => self@.get_str(key@) is None,
            },
    {
        match self.get(key) {
            Some(v) => v.as_str(),
            None => None,
        }
    }

    /// The text under `key`, or the empty text.
    pub fn text_at(&self, key: &str) -> (r: String)
        ensures
            r@ == self@.text_at(key@),
    {
        match self.get_str(key) {
            Some(s) => String::from_str(s),
            None => String::new(),
        }
    }

    /// The signed number under `key`.
    pub fn get_i64(&self, key: &str) -> (r: Option<i64>)
        ensures
            match r {
                Some(n) => self@.get_i64(key@) == Some(n as int),
                None => self@.get_i64(key@) is None,
            },
    {
        match self.get(key) {
            Some(v) => v.as_i64(),
            None => None,
        }
    }

    /// The unsigned number under `key`.
    pub fn get_u64(&self, key: &str) -> (r: Option<u64>)
        ensures
            match r {
                Some(n) => self@.get_u64(key@) == Some(n as int),
                None => self@.get_u64(key@) is None,
            },
    {
        match self.get(key) {
            Some(v) => v.as_u64(),
            None => None,
        }
    }

    /// The array under `key`.
    pub fn get_array(&self, key: &str) -> (r: Option<&Vec<Json>>)
        ensures
            match r {
                Some(v) => self@.get_array(key@) == Some(list_view(v@)),
                None => self@.get_array(key@) is None,
            },
    {
        match self.get(key) {
            Some(v) => v.as_array(),
            None => None,
        }
    }

    /// The object with `value` under `key`; any other value as it is.
    pub fn with(self, key: &str, value: Json) -> (r: Json)
        ensures
            r@ == self@.with(key@, value@),
    {
        broadcast use group_json_views;

        match self {
            Json::Object(mut v) => {
                let ghost e = entries_view(v@);
                let n = v.len();
                let mut i: usize = 0;
                assert(e.skip(0) =~= e);
                assert(e.take(0) + put(e, key@, value@) =~= put(e, key@, value@));
                while i < n && !same(v[i].0.as_str(), key) && !comes_before(key, v[i].0.as_str())
                    invariant
                        i <= n == v@.len(),
                        e == entries_view(v@),
                        e.take(i as int) + put(e.skip(i as int), key@, value@) == put(e, key@, value@),
                    decreases n - i,
                {
                    proof {
                        let rest = e.skip(i as int);
                        assert(rest[0] == (v@[i as int].0@, v@[i as int].1@));
                        assert(rest.skip(1) =~= e.skip(i + 1));
                        assert(e.take(i + 1) + put(e.skip(i + 1), key@, value@)
                            =~= e.take(i as int) + (seq![rest[0]] + put(rest.skip(1), key@, value@)));
                    }
                    i = i + 1;
                }
                let ghost rest = e.skip(i as int);
                if i < n {
                    assert(rest[0] == (v@[i as int].0@, v@[i as int].1@));
                }
                if i < n && same(v[i].0.as_str(), key) {
                    let ghost val = value@;
                    let new = (String::from_str(key), value);
                    let ghost newv = (new.0@, new.1@);
                    v.set(i, new);
                    proof {
                        assert(entries_view(v@) =~= e.update(i as int, newv));
                        assert(e.update(i as int, newv) =~= e.take(i as int) + (seq![(key@, val)] + rest.skip(1)));
                    }
                } else {
                    let ghost val = value@;
                    let new = (String::from_str(key), value);
                    let ghost newv = (new.0@, new.1@);
                    v.insert(i, new);
                    proof {
                        assert(entries_view(v@) =~= e.insert(i as int, newv));
                        if rest.len() == 0 {
                            assert(e.insert(i as int, newv) =~= e.take(i as int) + seq![(key@, val)]);
                        } else {
                            assert(e.insert(i as int, newv) =~= e.take(i as int) + (seq![(key@, val)] + rest));
                        }
                    }
                }
                Json::Object(v)
            },
            other => other,
        }
    }
}

// ---------------------------------------------------------------------------
// Objects of a known shape
// ---------------------------------------------------------------------------

/// An object of one entry.
pub fn object1(k1: &str, v1: Json) -> (r: Json)
    ensures
        r@ == JsonView::Object(seq![(k1@, v1@)]),
{
    let ghost e = seq![(k1@, v1@)];
    let v = vec![entry(k1, v1)];
    assert(entries_view(v@) =~= e);
    object(v)
}

/// An object of two entries.
pub fn object2(k1: &str, v1: Json, k2: &str, v2: Json) -> (r: Json)
    ensures
        r@ == JsonView::Object(seq![(k1@, v1@), (k2@, v2@)]),
{
    let ghost e = seq![(k1@, v1@), (k2@, v2@)];
    let v = vec![entry(k1, v1), entry(k2, v2)];
    assert(entries_view(v@) =~= e);
    object(v)
}

/// An object of three entries.
pub fn object3(k1: &str, v1: Json, k2: &str, v2: Json, k3: &str, v3: Json) -> (r: Json)
    ensures
        r@ == JsonView::Object(seq![(k1@, v1@), (k2@, v2@), (k3@, v3@)]),
{
    let ghost e = seq![(k1@, v1@), (k2@, v2@), (k3@, v3@)];
    let v = vec![entry(k1, v1), entry(k2, v2), entry(k3, v3)];
    assert(entries_view(v@) =~= e);
    object(v)
}

/// An object of four entries.
pub fn object4(k1: &str, v1: Json, k2: &str, v2: Json, k3: &str, v3: Json, k4: &str, v4: Json) -> (r: Json)
    ensures
        r@ == JsonView::Object(seq![(k1@, v1@), (k2@, v2@), (k3@, v3@), (k4@, v4@)]),
{
    let ghost e = seq![(k1@, v1@), (k2@, v2@), (k3@, v3@), (k4@, v4@)];
    let v = vec![entry(k1, v1), entry(k2, v2), entry(k3, v3), entry(k4, v4)];
    assert(entries_view(v@) =~= e);
    object(v)
}

/// An object of five entries.
pub fn object5(k1: &str, v1: Json, k2: &str, v2: Json, k3: &str, v3: Json, k4: &str, v4: Json, k5: &str, v5: Json) -> (r: Json)
    ensures
        r@ == JsonView::Object(seq![(k1@, v1@), (k2@, v2@), (k3@, v3@), (k4@, v4@), (k5@, v5@)]),
{
    let ghost e = seq![(k1@, v1@), (k2@, v2@), (k3@, v3@), (k4@, v4@), (k5@, v5@)];
    let v = vec![entry(k1, v1), entry(k2, v2), entry(k3, v3), entry(k4, v4), entry(k5, v5)];
    assert(entries_view(v@) =~= e);
    object(v)
}

/// An object of six entries.
pub fn object6(k1: &str, v1: Json, k2: &str, v2: Json, k3: &str, v3: Json, k4: &str, v4: Json, k5: &str, v5: Json, k6: &str, v6: Json) -> (r: Json)
    ensures
        r@ == JsonView::Object(seq![(k1@, v1@), (k2@, v2@), (k3@, v3@), (k4@, v4@), (k5@, v5@), (k6@, v6@)]),
{
    let ghost e = seq![(k1@, v1@), (k2@, v2@), (k3@, v3@), (k4@, v4@), (k5@, v5@), (k6@, v6@)];
    let v = vec![entry(k1, v1), entry(k2, v2), entry(k3, v3), entry(k4, v4), entry(k5, v5), entry(k6, v6)];
    assert(entries_view(v@) =~= e);
    object(v)
}

/// An object of nine entries.
pub fn object9(k1: &str, v1: Json, k2: &str, v2: Json, k3: &str, v3: Json, k4: &str, v4: Json, k5: &str, v5: Json, k6: &str, v6: Json, k7: &str, v7: Json, k8: &str, v8: Json, k9: &str, v9: Json) -> (r: Json)
    ensures
        r@ == JsonView::Object(seq![(k1@, v1@), (k2@, v2@), (k3@, v3@), (k4@, v4@), (k5@, v5@), (k6@, v6@), (k7@, v7@), (k8@, v8@), (k9@, v9@)]),
{
    let ghost e = seq![(k1@, v1@), (k2@, v2@), (k3@, v3@), (k4@, v4@), (k5@, v5@), (k6@, v6@), (k7@, v7@), (k8@, v8@), (k9@, v9@)];
    let v = vec![entry(k1, v1), entry(k2, v2), entry(k3, v3), entry(k4, v4), entry(k5, v5), entry(k6, v6), entry(k7, v7), entry(k8, v8), entry(k9, v9)];
    assert(entries_view(v@) =~= e);
    object(v)
}

/// The entries with their values in normal form.
pub open spec fn normal_entries(e: Seq<(Seq<char>, JsonView)>) -> Seq<(Seq<char>, JsonView)>
    decreases e,
{
    if e.len() == 0 {
        Seq::empty()
    } else {
        normal_entries(e.drop_last()).push((e.last().0, e.last().1.normal()))
    }
}

impl JsonView {
    /// The value with the entries of every object in order.
    pub open spec fn normal(self) -> JsonView
        decreases self,
    {
        match self {
            JsonView::Array(a) => JsonView::Array(
                Seq::new(
                    a.len(),
                    |i: int|
                        if 0 <= i < a.len() {
                            a[i].normal()
                        } else {
                            arbitrary()
                        },
                ),
            ),
            JsonView::Object(e) => JsonView::Object(put_all(normal_entries(e))),
            _ => self,
        }
    }

    /// No text in the value holds the character, be it a value or a key.
    pub open spec fn free_of(self, c: char) -> bool
        decreases self,
    {
        match self {
            JsonView::Str(s) => !s.contains(c),
            JsonView::Array(a) => forall|i: int| 0 <= i < a.len() ==> (#[trigger] a[i]).free_of(c),
            JsonView::Object(e) => forall|i: int|
                0 <= i < e.len() ==> !(#[trigger] e[i]).0.contains(c) && e[i].1.free_of(c),
            _ => true,
        }
    }

    /// No number in the value has a fraction, and no more than `depth` arrays and
    /// objects stand one inside the other.
    pub open spec fn plain(self, depth: nat) -> bool
        decreases self,
    {
        match self {
            JsonView::Num(NumberView::Float(_)) => false,
            JsonView::Array(a) => depth > 0 && forall|i: int|
                0 <= i < a.len() ==> (#[trigger] a[i]).plain((depth - 1) as nat),
            JsonView::Object(e) => depth > 0 && forall|i: int|
                0 <= i < e.len() ==> (#[trigger] e[i]).1.plain((depth - 1) as nat),
            _ => true,
        }
    }
}

// ---------------------------------------------------------------------------
// Laws
// ---------------------------------------------------------------------------

/// A value whose objects are in order is its own normal form.
pub proof fn law_canonical_is_normal(v: JsonView)
    requires
        v.canonical(),
    ensures
        v.normal() == v,
    decreases v,
{
    match v {
        JsonView::Array(a) => {
            assert forall|i: int| 0 <= i < a.len() implies (#[trigger] a[i]).normal() == a[i] by {
                law_canonical_is_normal(a[i]);
            }
            assert(v.normal()->Array_0 =~= a);
        },
        JsonView::Object(e) => {
            assert forall|i: int| 0 <= i < e.len() implies (#[trigger] e[i]).1.normal() == e[i].1 by {
                law_canonical_is_normal(e[i].1);
            }
            lemma_normal_entries(e);
            lemma_put_all_ascending(e);
        },
        _ => {},
    }
}

/// Entries whose values are in normal form stay as they are.
proof fn lemma_normal_entries(e: Seq<(Seq<char>, JsonView)>)
    requires
        forall|i: int| 0 <= i < e.len() ==> (#[trigger] e[i]).1.normal() == e[i].1,
    ensures
        normal_entries(e) == e,
    decreases e.len(),
{
    if e.len() > 0 {
        assert(e[e.len() - 1].1.normal() == e.last().1);
        let d = e.drop_last();
        assert forall|i: int| 0 <= i < d.len() implies (#[trigger] d[i]).1.normal() == d[i].1 by {
            assert(e[i].1.normal() == e[i].1);
        }
        lemma_normal_entries(d);
    }
    assert(normal_entries(e) =~= e);
}

/// A whole number is read where it fits: with a sign into 64 bits, and without one into as
/// many; nothing else is read as one.
pub proof fn law_whole_numbers_are_read(n: int, v: JsonView, fraction: Seq<char>)
    ensures
        i64::MIN <= n <= i64::MAX ==> whole(n).as_i64() == Some(n),
        !(i64::MIN <= n <= i64::MAX) ==> whole(n).as_i64() is None,
        0 <= n <= u64::MAX ==> whole(n).as_u64() == Some(n),
        !(0 <= n <= u64::MAX) ==> whole(n).as_u64() is None,
        JsonView::Num(NumberView::Float(fraction)).as_i64() is None,
        JsonView::Num(NumberView::Float(fraction)).as_u64() is None,
        !(v is Num) ==> v.as_i64() is None && v.as_u64() is None,
{
}

/// What stands under a key is read as what it is, and as nothing else; a value that is no
/// object has nothing under any key.
pub proof fn law_values_are_read_by_kind(v: JsonView, key: Seq<char>)
    ensures
        !(v is Object) ==> v.get(key) is None,
        v.get(key) matches Some(JsonView::Str(s)) ==> v.get_str(key) == Some(s) && v.text_at(key) == s,
        v.get(key) matches Some(JsonView::Array(a)) ==> v.get_array(key) == Some(a),
        v.get(key) matches Some(w) && !(w is Str) ==> v.get_str(key) is None && v.text_at(key).len() == 0,
        v.get(key) matches Some(w) && !(w is Array) ==> v.get_array(key) is None,
        v.get(key) matches Some(w) ==> v.get_i64(key) == w.as_i64() && v.get_u64(key) == w.as_u64(),
        v.get(key) is None ==> v.get_str(key) is None && v.get_array(key) is None && v.get_i64(key) is None && v.get_u64(
            key,
        ) is None && v.text_at(key).len() == 0,
{
}

/// A value that is set is read back; the values under other keys stay.
pub proof fn law_value_is_set(v: JsonView, key: Seq<char>, value: JsonView, other: Seq<char>)
    requires
        v is Object,
    ensures
        v.with(key, value).get(key) == Some(value),
        other != key ==> v.with(key, value).get(other) == v.get(other),
{
    crate::ordered::law_put_then_lookup(v->Object_0, key, value, other);
}

/// A value, or a text, that there is none of is null.
pub proof fn law_absent_is_null(v: JsonView, s: Seq<char>)
    ensures
        or_null(Some(v)) == v,
        or_null(None) == JsonView::Null,
        text_or_null(Some(s)) == JsonView::Str(s),
        text_or_null(None) == JsonView::Null,
{
}

} // verus!
