//! TOML documents, through the crate `toml`.
use vstd::prelude::*;

use crate::json::{entries_view, number_view, fraction_of, nearest_fraction, Json, JsonView, NumberView};
use crate::numbers::signed_decimal;
use crate::ordered::{keys_ascend, lookup, precedes, put, put_all};
use crate::text::{contains_of, same};

verus! {

/// The type of TOML values of the crate `toml`.
#[verifier::external_type_specification]
#[verifier::external_body]
pub struct ExTomlValue(toml::Value);

/// What a TOML value says. A fraction is given by the shortest numeral that reads
/// as it, where it is a finite number; a date by its text.
pub enum TomlView {
    Str(Seq<char>),
    Int(int),
    Float(Option<Seq<char>>),
    Bool(bool),
    Datetime(Seq<char>),
    Array(Seq<TomlView>),
    Table(Seq<(Seq<char>, TomlView)>),
}

/// What a value of `toml::Value` says: its variant, with what that holds; a table
/// lists its entries as its iterator gives them, by key.
pub uninterp spec fn toml_view(v: toml::Value) -> TomlView;

/// What `toml::from_str` makes of a text: the value, or the error's message.
pub uninterp spec fn toml_parse(text: Seq<char>) -> Result<TomlView, Seq<char>>;

/// What `toml::to_string` makes of a value without infinite fractions and fractions
/// that are no numbers: the text, or the error's message.
pub uninterp spec fn toml_text(v: TomlView) -> Result<Seq<char>, Seq<char>>;

/// A TOML value. A table lists its entries by key, in order.
pub enum Toml {
    Str(String),
    Int(i64),
    Float(Option<serde_json::Number>),
    Bool(bool),
    Datetime(String),
    Array(Vec<Toml>),
    Table(Vec<(String, Toml)>),
}

/// The outermost layer of a TOML value.
pub enum TomlLayer {
    Str(String),
    Int(i64),
    Float(Option<serde_json::Number>),
    Bool(bool),
    Datetime(String),
    Array(Vec<toml::Value>),
    Table(Vec<(String, toml::Value)>),
}

/// What a fraction says: the numeral of a finite one.
pub open spec fn fraction_view(n: Option<serde_json::Number>) -> Option<Seq<char>> {
    match n {
        Some(n) => Some(nearest_fraction(number_view(n))),
        None => None,
    }
}

/// What a list of `toml` values says.
pub open spec fn toml_values_view(v: Seq<toml::Value>) -> Seq<TomlView> {
    v.map_values(|x: toml::Value| toml_view(x))
}

/// What a list of entries of `toml` values says.
pub open spec fn toml_value_entries_view(v: Seq<(String, toml::Value)>) -> Seq<(Seq<char>, TomlView)> {
    v.map_values(|e: (String, toml::Value)| (e.0@, toml_view(e.1)))
}

impl TomlLayer {
    /// What the layer says.
    pub open spec fn view(&self) -> TomlView {
        match self {
            TomlLayer::Str(s) => TomlView::Str(s@),
            TomlLayer::Int(i) => TomlView::Int(*i as int),
            TomlLayer::Float(n) => TomlView::Float(fraction_view(*n)),
            TomlLayer::Bool(b) => TomlView::Bool(*b),
            TomlLayer::Datetime(s) => TomlView::Datetime(s@),
            TomlLayer::Array(v) => TomlView::Array(toml_values_view(v@)),
            TomlLayer::Table(v) => TomlView::Table(toml_value_entries_view(v@)),
        }
    }
}

impl Toml {
    /// What the value says.
    pub open spec fn view(&self) -> TomlView
        decreases self,
    {
        match self {
            Toml::Str(s) => TomlView::Str(s@),
            Toml::Int(i) => TomlView::Int(*i as int),
            Toml::Float(n) => TomlView::Float(fraction_view(*n)),
            Toml::Bool(b) => TomlView::Bool(*b),
            Toml::Datetime(s) => TomlView::Datetime(s@),
            Toml::Array(v) => TomlView::Array(
                Seq::new(
                    v@.len(),
                    |i: int|
                        if 0 <= i < v@.len() {
                            v@[i].view()
                        } else {
                            arbitrary()
                        },
                ),
            ),
            Toml::Table(v) => TomlView::Table(
                Seq::new(
                    v@.len(),
                    |i: int|
                        if 0 <= i < v@.len() {
                            (v@[i].0@, v@[i].1.view())
                        } else {
                            arbitrary()
                        },
                ),
            ),
        }
    }
}

/// What a list of TOML values says.
pub open spec fn toml_list_view(v: Seq<Toml>) -> Seq<TomlView> {
    v.map_values(|t: Toml| t@)
}

/// What a list of TOML entries says.
pub open spec fn toml_entries_view(v: Seq<(String, Toml)>) -> Seq<(Seq<char>, TomlView)> {
    v.map_values(|e: (String, Toml)| (e.0@, e.1@))
}

/// Every fraction in the value is a finite number.
pub open spec fn is_finite(v: TomlView) -> bool
    decreases v,
{
    match v {
        TomlView::Float(n) => n is Some,
        TomlView::Array(a) => forall|i: int| 0 <= i < a.len() ==> is_finite(#[trigger] a[i]),
        TomlView::Table(e) => forall|i: int| 0 <= i < e.len() ==> is_finite((#[trigger] e[i]).1),
        _ => true,
    }
}

impl TomlView {
    /// The value under `key`, where this is a table that has it.
    pub open spec fn get(self, key: Seq<char>) -> Option<TomlView> {
        match self {
            TomlView::Table(e) => lookup(e, key),
            _ => None,
        }
    }

    /// The text, where this is a text.
    pub open spec fn as_str(self) -> Option<Seq<char>> {
        match self {
            TomlView::Str(s) => Some(s),
            _ => None,
        }
    }

    /// The entries, where this is an array.
    pub open spec fn as_array(self) -> Option<Seq<TomlView>> {
        match self {
            TomlView::Array(a) => Some(a),
            _ => None,
        }
    }

    /// The text under `key`, where this is a table that has one there.
    pub open spec fn get_str(self, key: Seq<char>) -> Option<Seq<char>> {
        match self.get(key) {
            Some(v) => v.as_str(),
            None => None,
        }
    }
}

// ---------------------------------------------------------------------------
// Lists of tables in TOML text
// ---------------------------------------------------------------------------

/// The text can stand as a key without quotes.
pub open spec fn is_bare_key(s: Seq<char>) -> bool {
    s.len() > 0 && forall|i: int| 0 <= i < s.len() ==> is_key_char(#[trigger] s[i])
}

/// The character can stand in a key without quotes.
pub open spec fn is_key_char(c: char) -> bool {
    'a' <= c <= 'z' || 'A' <= c <= 'Z' || '0' <= c <= '9' || c == '_' || c == '-'
}

/// The character may stand in a text as it is: it is a tab or no control character.
pub open spec fn is_shown(c: char) -> bool {
    c == '\t' || ' ' <= c && c != '\u{7f}'
}

/// All characters may stand in a text as they are.
pub open spec fn all_shown(s: Seq<char>) -> bool {
    forall|i: int| 0 <= i < s.len() ==> is_shown(#[trigger] s[i])
}

/// All characters may stand in a text of several lines as they are.
pub open spec fn all_shown_in_lines(s: Seq<char>) -> bool {
    forall|i: int| 0 <= i < s.len() ==> is_shown(#[trigger] s[i]) || s[i] == '\n'
}

/// What a text between double quotes stands for: a backslash and the character
/// behind it stand for one, a bare quote ends the text too soon, and every other
/// character stands for itself.
pub open spec fn quoted_value(s: Seq<char>) -> Option<Seq<char>>
    decreases s.len(),
{
    if s.len() == 0 {
        Some(Seq::empty())
    } else if s[0] == '"' {
        None
    } else if s[0] == '\\' {
        if s.len() < 2 {
            None
        } else {
            match (escape_value(s[1]), quoted_value(s.skip(2))) {
                (Some(c), Some(rest)) => Some(seq![c] + rest),
                _ => None,
            }
        }
    } else {
        match quoted_value(s.skip(1)) {
            Some(rest) => Some(seq![s[0]] + rest),
            None => None,
        }
    }
}

/// What a character behind a backslash stands for.
pub open spec fn escape_value(c: char) -> Option<char> {
    if c == '\\' || c == '"' {
        Some(c)
    } else if c == 't' {
        Some('\t')
    } else if c == 'n' {
        Some('\n')
    } else if c == 'r' {
        Some('\r')
    } else {
        None
    }
}

/// A value as it is written in a table.
pub enum Literal {
    Bool(bool),
    Int(int),
    /// What stands between double quotes.
    Quoted(Seq<char>),
    /// Lines between triple single quotes.
    Lines(Seq<char>),
}

/// The value is written as it must be.
pub open spec fn is_sound(l: Literal) -> bool {
    match l {
        Literal::Bool(_) => true,
        Literal::Int(i) => i64::MIN <= i <= i64::MAX,
        Literal::Quoted(s) => all_shown(s) && quoted_value(s) is Some,
        Literal::Lines(s) => all_shown_in_lines(s) && !contains_of(s, "'''"@),
    }
}

/// How the value is written.
pub open spec fn literal_text(l: Literal) -> Seq<char> {
    match l {
        Literal::Bool(b) => if b {
            "true"@
        } else {
            "false"@
        },
        Literal::Int(i) => signed_decimal(i),
        Literal::Quoted(s) => "\""@ + s + "\""@,
        Literal::Lines(s) => "'''\n"@ + s + "'''"@,
    }
}

/// What the value says.
pub open spec fn literal_value(l: Literal) -> TomlView {
    match l {
        Literal::Bool(b) => TomlView::Bool(b),
        Literal::Int(i) => TomlView::Int(i),
        Literal::Quoted(s) => TomlView::Str(quoted_value(s)->0),
        Literal::Lines(s) => TomlView::Str(s),
    }
}

/// The entries of a table are written as they must be, in order.
pub open spec fn is_sound_table(entries: Seq<(Seq<char>, Literal)>) -> bool {
    &&& keys_ascend(entries)
    &&& forall|i: int| 0 <= i < entries.len() ==> is_bare_key((#[trigger] entries[i]).0) && is_sound(entries[i].1)
}

/// How a table of a list is written: its heading and its entries, line by line.
pub open spec fn table_text(name: Seq<char>, entries: Seq<(Seq<char>, Literal)>) -> Seq<char>
    decreases entries.len(),
{
    if entries.len() == 0 {
        "\n[["@ + name + "]]"@
    } else {
        table_text(name, entries.drop_last()) + "\n"@ + entries.last().0 + " = "@ + literal_text(entries.last().1)
    }
}

/// How a list of tables is written.
pub open spec fn tables_text(name: Seq<char>, tables: Seq<Seq<(Seq<char>, Literal)>>) -> Seq<char>
    decreases tables.len(),
{
    if tables.len() == 0 {
        Seq::empty()
    } else {
        tables_text(name, tables.drop_last()) + table_text(name, tables.last()) + "\n"@
    }
}

/// What a table says.
pub open spec fn table_value(entries: Seq<(Seq<char>, Literal)>) -> TomlView {
    TomlView::Table(entries.map_values(|e: (Seq<char>, Literal)| (e.0, literal_value(e.1))))
}

/// What a document of a list of tables says.
pub open spec fn tables_value(name: Seq<char>, tables: Seq<Seq<(Seq<char>, Literal)>>) -> TomlView {
    if tables.len() == 0 {
        TomlView::Table(Seq::empty())
    } else {
        TomlView::Table(
            seq![(name, TomlView::Array(tables.map_values(|t: Seq<(Seq<char>, Literal)>| table_value(t))))],
        )
    }
}

/// The tables of a list are written as they must be.
pub open spec fn are_sound_tables(name: Seq<char>, tables: Seq<Seq<(Seq<char>, Literal)>>) -> bool {
    is_bare_key(name) && forall|i: int| 0 <= i < tables.len() ==> is_sound_table(#[trigger] tables[i])
}

/// Where the text is made of nothing but tables of one list, that list is read.
pub open spec fn reads_tables(text: Seq<char>, read: Option<TomlView>) -> bool {
    forall|name: Seq<char>, tables: Seq<Seq<(Seq<char>, Literal)>>|
        text == #[trigger] tables_text(name, tables) && are_sound_tables(name, tables) ==> read == Some(
            tables_value(name, tables),
        )
}

/// What was read, if anything was.
pub open spec fn parsed_view(r: Result<toml::Value, String>) -> Option<TomlView> {
    match r {
        Ok(v) => Some(toml_view(v)),
        Err(_) => None,
    }
}

/// What was read, if anything was.
pub open spec fn read_view(r: Result<Toml, String>) -> Option<TomlView> {
    match r {
        Ok(t) => Some(t@),
        Err(_) => None,
    }
}

// ---------------------------------------------------------------------------
// The crate `toml`
// ---------------------------------------------------------------------------

/// Takes a `toml::Value` apart by its variants. A fraction is handed to
/// `serde_json::Number::from_f64`, which takes the finite ones; a date becomes the
/// text of its `Display`.
#[verifier::external_body]
fn peel_toml(v: toml::Value) -> (r: TomlLayer)
    ensures
        r@ == toml_view(v),
{
    match v {
        toml::Value::String(s) => TomlLayer::Str(s),
        toml::Value::Integer(i) => TomlLayer::Int(i),
        toml::Value::Float(x) => TomlLayer::Float(serde_json::Number::from_f64(x)),
        toml::Value::Boolean(b) => TomlLayer::Bool(b),
        toml::Value::Datetime(d) => TomlLayer::Datetime(d.to_string()),
        toml::Value::Array(a) => TomlLayer::Array(a),
        toml::Value::Table(t) => TomlLayer::Table(t.into_iter().collect()),
    }
}

/// The variant `toml::Value::String`.
#[verifier::external_body]
fn toml_string(s: String) -> (r: toml::Value)
    ensures
        toml_view(r) == TomlView::Str(s@),
{
    toml::Value::String(s)
}

/// The variant `toml::Value::Integer`.
#[verifier::external_body]
fn toml_integer(i: i64) -> (r: toml::Value)
    ensures
        toml_view(r) == TomlView::Int(i as int),
{
    toml::Value::Integer(i)
}

/// The variant `toml::Value::Float` with what `serde_json::Number::as_f64` gives,
/// which is always finite.
#[verifier::external_body]
fn toml_fraction(n: &serde_json::Number) -> (r: toml::Value)
    ensures
        toml_view(r) == TomlView::Float(Some(nearest_fraction(number_view(*n)))),
{
    toml::Value::Float(n.as_f64().unwrap_or_default())
}

/// The variant `toml::Value::Boolean`.
#[verifier::external_body]
fn toml_boolean(b: bool) -> (r: toml::Value)
    ensures
        toml_view(r) == TomlView::Bool(b),
{
    toml::Value::Boolean(b)
}

/// The variant `toml::Value::Array`.
#[verifier::external_body]
fn toml_array(v: Vec<toml::Value>) -> (r: toml::Value)
    ensures
        toml_view(r) == TomlView::Array(toml_values_view(v@)),
{
    toml::Value::Array(v)
}

/// The variant `toml::Value::Table`. The entries are collected into `toml`'s map,
/// which keeps each key once, in order, with the last value given for it.
#[verifier::external_body]
fn toml_table(v: Vec<(String, toml::Value)>) -> (r: toml::Value)
    ensures
        toml_view(r) == TomlView::Table(put_all(toml_value_entries_view(v@))),
{
    toml::Value::Table(v.into_iter().collect())
}

/// `toml::from_str` into a value; an error becomes its message. A text that is made of
/// nothing but tables of one list, each under its heading `[[name]]` and with its
/// entries one to a line, reads as that list.
#[verifier::external_body]
fn read_toml_value(text: &str) -> (r: Result<toml::Value, String>)
    ensures
        match r {
            Ok(v) => (toml_parse(text@) matches Ok(w) && w == toml_view(v)),
            Err(e) => (toml_parse(text@) matches Err(w) && w == e@),
        },
        reads_tables(text@, parsed_view(r)),
{
    toml::from_str::<toml::Value>(text).map_err(|e| e.to_string())
}

/// `toml::to_string` of a value whose fractions are all finite; an error becomes its
/// message.
#[verifier::external_body]
fn write_toml_value(v: &toml::Value) -> (r: Result<String, String>)
    requires
        is_finite(toml_view(*v)),
    ensures
        match r {
            Ok(s) => (toml_text(toml_view(*v)) matches Ok(w) && w == s@),
            Err(e) => (toml_text(toml_view(*v)) matches Err(w) && w == e@),
        },
{
    toml::to_string(v).map_err(|e| e.to_string())
}

// ---------------------------------------------------------------------------
// Reading
// ---------------------------------------------------------------------------

/// A `toml::Value` as a TOML value of the library.
fn from_toml_value(v: toml::Value) -> (r: Toml)
    ensures
        r@ == toml_view(v),
    decreases toml_view(v),
{
    match peel_toml(v) {
        TomlLayer::Str(s) => Toml::Str(s),
        TomlLayer::Int(i) => Toml::Int(i),
        TomlLayer::Float(n) => Toml::Float(n),
        TomlLayer::Bool(b) => Toml::Bool(b),
        TomlLayer::Datetime(s) => Toml::Datetime(s),
        TomlLayer::Array(items) => {
            let ghost all = toml_values_view(items@);
            let mut out: Vec<Toml> = Vec::new();
            for item in it: items
                invariant
                    it.seq() == items@,
                    all == toml_values_view(items@),
                    toml_view(v) == TomlView::Array(all),
                    toml_list_view(out@) == all.take(it.index()),
            {
                let ghost before = out@;
                proof {
                    assert(all[it.index()] == toml_view(item));
                    assert(decreases_to!(toml_view(v) => toml_view(v)->Array_0));
                    assert(decreases_to!(toml_view(v)->Array_0 => toml_view(v)->Array_0[it.index()]));
                }
                out.push(from_toml_value(item));
                assert(all.take(it.index() + 1) =~= all.take(it.index()).push(toml_view(item)));
                assert(toml_list_view(out@) =~= toml_list_view(before).push(toml_view(item)));
            }
            assert(all.take(all.len() as int) =~= all);
            let r = Toml::Array(out);
            assert(r@->Array_0 =~= toml_list_view(out@));
            r
        },
        TomlLayer::Table(items) => {
            let ghost all = toml_value_entries_view(items@);
            let mut out: Vec<(String, Toml)> = Vec::new();
            for item in it: items
                invariant
                    it.seq() == items@,
                    all == toml_value_entries_view(items@),
                    toml_view(v) == TomlView::Table(all),
                    toml_entries_view(out@) == all.take(it.index()),
            {
                let ghost before = out@;
                proof {
                    assert(all[it.index()] == (item.0@, toml_view(item.1)));
                    assert(decreases_to!(toml_view(v) => toml_view(v)->Table_0));
                    assert(decreases_to!(toml_view(v)->Table_0 => toml_view(v)->Table_0[it.index()]));
                    assert(decreases_to!(toml_view(v)->Table_0[it.index()] => toml_view(v)->Table_0[it.index()].1));
                }
                let (key, value) = item;
                out.push((key, from_toml_value(value)));
                assert(all.take(it.index() + 1) =~= all.take(it.index()).push((item.0@, toml_view(item.1))));
                assert(toml_entries_view(out@) =~= toml_entries_view(before).push((item.0@, toml_view(item.1))));
            }
            assert(all.take(all.len() as int) =~= all);
            let r = Toml::Table(out);
            assert(r@->Table_0 =~= toml_entries_view(out@));
            r
        },
    }
}

/// Reads a TOML document; an error is given by its message. A text that is made of
/// nothing but tables of one list reads as that list.
pub fn parse_toml(text: &str) -> (r: Result<Toml, String>)
    ensures
        match r {
            Ok(t) => (toml_parse(text@) matches Ok(w) && w == t@),
            Err(e) => (toml_parse(text@) matches Err(w) && w == e@),
        },
        reads_tables(text@, read_view(r)),
{
    match read_toml_value(text) {
        Ok(v) => Ok(from_toml_value(v)),
        Err(e) => Err(e),
    }
}

impl Toml {
    /// The value under `key`, where this is a table that has it.
    pub fn get(&self, key: &str) -> (r: Option<&Toml>)
        ensures
            match r {
                Some(t) => self@.get(key@) == Some(t@),
                None => self@.get(key@) is None,
            },
    {
        match self {
            Toml::Table(v) => {
                let ghost e = self@->Table_0;
                assert(e =~= toml_entries_view(v@));
                assert(e.skip(0) =~= e);
                for i in 0..v.len()
                    invariant
                        e == toml_entries_view(v@),
                        self@ == TomlView::Table(e),
                        lookup(e, key@) == lookup(e.skip(i as int), key@),
                {
                    assert(e[i as int] == (v@[i as int].0@, v@[i as int].1@));
                    if same(v[i].0.as_str(), key) {
                        return Some(&v[i].1);
                    }
                    assert(e.skip(i as int).skip(1) =~= e.skip(i + 1));
                }
                assert(e.skip(v@.len() as int) =~= Seq::empty());
                None
            },
            _ => None,
        }
    }

    /// Whether this is a table.
    pub fn is_table(&self) -> (r: bool)
        ensures
            r == (self@ is Table),
    {
        match self {
            Toml::Table(_) => true,
            _ => false,
        }
    }

    /// The text, where this is a text.
    pub fn as_str(&self) -> (r: Option<&str>)
        ensures
            match r {
                Some(s) => self@.as_str() == Some(s@),
                None => self@.as_str() is None,
            },
    {
        match self {
            Toml::Str(s) => Some(s.as_str()),
            _ => None,
        }
    }

    /// The entries, where this is an array.
    pub fn as_array(&self) -> (r: Option<&Vec<Toml>>)
        ensures
            match r {
                Some(v) => self@.as_array() == Some(toml_list_view(v@)),
                None => self@.as_array() is None,
            },
    {
        match self {
            Toml::Array(v) => {
                assert(self@->Array_0 =~= toml_list_view(v@));
                Some(v)
            },
            _ => None,
        }
    }

    /// The text under `key`, where this is a table that has one there.
    pub fn get_str(&self, key: &str) -> (r: Option<&str>)
        ensures
            match r {
                Some(s) => self@.get_str(key@) == Some(s@),
                None => self@.get_str(key@) is None,
            },
    {
        match self.get(key) {
            Some(v) => v.as_str(),
            None => None,
        }
    }
}

// ---------------------------------------------------------------------------
// Between JSON and TOML
// ---------------------------------------------------------------------------

/// The TOML entries that stand for JSON entries.
pub open spec fn toml_entries_of(e: Seq<(Seq<char>, JsonView)>) -> Seq<(Seq<char>, TomlView)>
    decreases e,
{
    if e.len() == 0 {
        Seq::empty()
    } else {
        toml_entries_of(e.drop_last()).push((e.last().0, toml_of(e.last().1)))
    }
}

/// The TOML value that stands for a JSON value. There is no null in TOML: the empty
/// text stands for it. A number that does not fit 64 bits with a sign, or has a
/// fraction, becomes a fraction.
pub open spec fn toml_of(v: JsonView) -> TomlView
    decreases v,
{
    match v {
        JsonView::Null => TomlView::Str(Seq::empty()),
        JsonView::Bool(b) => TomlView::Bool(b),
        JsonView::Num(n) => match v.as_i64() {
            Some(i) => TomlView::Int(i),
            None => TomlView::Float(Some(nearest_fraction(n))),
        },
        JsonView::Str(s) => TomlView::Str(s),
        JsonView::Array(a) => TomlView::Array(
            Seq::new(
                a.len(),
                |i: int|
                    if 0 <= i < a.len() {
                        toml_of(a[i])
                    } else {
                        arbitrary()
                    },
            ),
        ),
        JsonView::Object(e) => TomlView::Table(put_all(toml_entries_of(e))),
    }
}

/// Turns a JSON value into a TOML value.
pub fn json_to_toml(j: &Json) -> (r: toml::Value)
    ensures
        toml_view(r) == toml_of(j@),
    decreases j,
{
    match j {
        Json::Null => toml_string(String::new()),
        Json::Bool(b) => toml_boolean(*b),
        Json::Num(n) => match n.as_i64() {
            Some(i) => toml_integer(i),
            None => toml_fraction(n),
        },
        Json::Str(s) => toml_string(s.clone()),
        Json::Array(v) => {
            let mut out: Vec<toml::Value> = Vec::new();
            for i in 0..v.len()
                invariant
                    out@.len() == i,
                    forall|k: int| 0 <= k < i ==> toml_view(#[trigger] out@[k]) == toml_of(v@[k]@),
                    j matches Json::Array(w) && w == v,
            {
                out.push(json_to_toml(&v[i]));
            }
            assert(toml_values_view(out@) =~= toml_of(j@)->Array_0);
            toml_array(out)
        },
        Json::Object(v) => {
            let mut out: Vec<(String, toml::Value)> = Vec::new();
            let ghost e = entries_view(v@);
            assert(toml_value_entries_view(out@) =~= toml_entries_of(e.take(0)));
            for i in 0..v.len()
                invariant
                    e == entries_view(v@),
                    toml_value_entries_view(out@) == toml_entries_of(e.take(i as int)),
                    j matches Json::Object(w) && w == v,
            {
                let ghost before = out@;
                let new = (v[i].0.clone(), json_to_toml(&v[i].1));
                proof {
                    assert(e.take(i + 1).drop_last() =~= e.take(i as int));
                    assert(e.take(i + 1).last() == (v@[i as int].0@, v@[i as int].1@));
                    assert(toml_value_entries_view(before.push(new)) =~= toml_value_entries_view(before).push(
                        (new.0@, toml_view(new.1)),
                    ));
                }
                out.push(new);
            }
            assert(e.take(v@.len() as int) =~= e);
            assert(j@->Object_0 =~= e);
            toml_table(out)
        },
    }
}

/// The document that holds the entries of a JSON object, as TOML text; an error is
/// given by its message.
pub fn toml_document(j: &Json) -> (r: Result<String, String>)
    ensures
        match r {
            Ok(s) => (toml_text(toml_of(j@)) matches Ok(w) && w == s@),
            Err(e) => (toml_text(toml_of(j@)) matches Err(w) && w == e@),
        },
{
    proof { lemma_from_json_is_finite(j@); }
    write_toml_value(&json_to_toml(j))
}

/// Putting a value into entries keeps the fractions finite.
proof fn lemma_put_finite(e: Seq<(Seq<char>, TomlView)>, key: Seq<char>, value: TomlView)
    requires
        forall|i: int| 0 <= i < e.len() ==> is_finite((#[trigger] e[i]).1),
        is_finite(value),
    ensures
        forall|i: int| 0 <= i < put(e, key, value).len() ==> is_finite((#[trigger] put(e, key, value)[i]).1),
    decreases e.len(),
{
    let after = put(e, key, value);
    if e.len() == 0 {
    } else if e[0].0 == key {
        assert forall|i: int| 0 <= i < after.len() implies is_finite((#[trigger] after[i]).1) by {
            assert(i > 0 ==> after[i] == e[i]);
        }
    } else if precedes(key, e[0].0) {
        assert forall|i: int| 0 <= i < after.len() implies is_finite((#[trigger] after[i]).1) by {
            assert(i > 0 ==> after[i] == e[i - 1]);
        }
    } else {
        let rest = e.skip(1);
        assert forall|i: int| 0 <= i < rest.len() implies is_finite((#[trigger] rest[i]).1) by {
            assert(rest[i] == e[i + 1]);
        }
        lemma_put_finite(rest, key, value);
        assert forall|i: int| 0 <= i < after.len() implies is_finite((#[trigger] after[i]).1) by {
            assert(i == 0 ==> after[i] == e[0]);
            assert(i > 0 ==> after[i] == put(rest, key, value)[i - 1]);
        }
    }
}

/// Collecting entries keeps the fractions finite.
proof fn lemma_put_all_finite(e: Seq<(Seq<char>, TomlView)>)
    requires
        forall|i: int| 0 <= i < e.len() ==> is_finite((#[trigger] e[i]).1),
    ensures
        forall|i: int| 0 <= i < put_all(e).len() ==> is_finite((#[trigger] put_all(e)[i]).1),
    decreases e.len(),
{
    if e.len() > 0 {
        let front = e.drop_last();
        assert forall|i: int| 0 <= i < front.len() implies is_finite((#[trigger] front[i]).1) by {
            assert(front[i] == e[i]);
        }
        lemma_put_all_finite(front);
        assert(is_finite(e[e.len() - 1].1));
        lemma_put_finite(put_all(front), e.last().0, e.last().1);
    }
}

/// The fractions among the entries that stand for JSON entries are finite.
proof fn lemma_entries_from_json_are_finite(e: Seq<(Seq<char>, JsonView)>)
    ensures
        forall|i: int| 0 <= i < toml_entries_of(e).len() ==> is_finite((#[trigger] toml_entries_of(e)[i]).1),
    decreases e,
{
    if e.len() > 0 {
        lemma_entries_from_json_are_finite(e.drop_last());
        lemma_from_json_is_finite(e.last().1);
        let t = toml_entries_of(e);
        let front = toml_entries_of(e.drop_last());
        assert forall|i: int| 0 <= i < t.len() implies is_finite((#[trigger] t[i]).1) by {
            assert(i < front.len() ==> t[i] == front[i]);
        }
    }
}

/// The fractions in a value that stands for a JSON value are finite.
proof fn lemma_from_json_is_finite(v: JsonView)
    ensures
        is_finite(toml_of(v)),
    decreases v,
{
    match v {
        JsonView::Array(a) => {
            let t = toml_of(v)->Array_0;
            assert forall|i: int| 0 <= i < t.len() implies is_finite(#[trigger] t[i]) by {
                lemma_from_json_is_finite(a[i]);
            }
        },
        JsonView::Object(e) => {
            lemma_entries_from_json_are_finite(e);
            lemma_put_all_finite(toml_entries_of(e));
        },
        _ => {},
    }
}

/// The JSON value that stands for a TOML value: a date becomes its text, and a
/// fraction that is no finite number becomes null.
pub open spec fn json_of(t: TomlView) -> JsonView
    decreases t,
{
    match t {
        TomlView::Str(s) => JsonView::Str(s),
        TomlView::Int(i) => JsonView::Num(NumberView::Int(i)),
        TomlView::Float(Some(s)) => JsonView::Num(NumberView::Float(s)),
        TomlView::Float(None) => JsonView::Null,
        TomlView::Bool(b) => JsonView::Bool(b),
        TomlView::Datetime(s) => JsonView::Str(s),
        TomlView::Array(a) => JsonView::Array(
            Seq::new(
                a.len(),
                |i: int|
                    if 0 <= i < a.len() {
                        json_of(a[i])
                    } else {
                        arbitrary()
                    },
            ),
        ),
        TomlView::Table(e) => JsonView::Object(
            Seq::new(
                e.len(),
                |i: int|
                    if 0 <= i < e.len() {
                        (e[i].0, json_of(e[i].1))
                    } else {
                        arbitrary()
                    },
            ),
        ),
    }
}

/// Turns a TOML value into a JSON value.
pub fn toml_to_json(t: &Toml) -> (r: Json)
    ensures
        r@ == json_of(t@),
    decreases t,
{
    match t {
        Toml::Str(s) => Json::Str(s.clone()),
        Toml::Int(i) => crate::json::signed_value(*i),
        Toml::Float(Some(n)) => Json::Num(fraction_of(n)),
        Toml::Float(None) => Json::Null,
        Toml::Bool(b) => Json::Bool(*b),
        Toml::Datetime(s) => Json::Str(s.clone()),
        Toml::Array(v) => {
            let mut out: Vec<Json> = Vec::new();
            for i in 0..v.len()
                invariant
                    out@.len() == i,
                    forall|k: int| 0 <= k < i ==> (#[trigger] out@[k])@ == json_of(v@[k]@),
                    t matches Toml::Array(w) && w == v,
            {
                out.push(toml_to_json(&v[i]));
            }
            let r = Json::Array(out);
            assert(r@->Array_0 =~= json_of(t@)->Array_0);
            r
        },
        Toml::Table(v) => {
            let mut out: Vec<(String, Json)> = Vec::new();
            for i in 0..v.len()
                invariant
                    out@.len() == i,
                    forall|k: int|
                        0 <= k < i ==> (#[trigger] out@[k]).0@ == v@[k].0@ && out@[k].1@ == json_of(v@[k].1@),
                    t matches Toml::Table(w) && w == v,
            {
                out.push((v[i].0.clone(), toml_to_json(&v[i].1)));
            }
            let r = Json::Object(out);
            assert(r@->Object_0 =~= json_of(t@)->Object_0);
            r
        },
    }
}

// ---------------------------------------------------------------------------
// Laws
// ---------------------------------------------------------------------------

/// Every item of an array stands for one, in order, and every other value for itself; a
/// null stands as the empty text.
pub proof fn law_json_is_kept_in_toml(v: JsonView, i: int)
    ensures
        v matches JsonView::Array(a) ==> (toml_of(v) matches TomlView::Array(b) && b.len() == a.len() && (0 <= i < a.len()
            ==> b[i] == toml_of(a[i]))),
        v matches JsonView::Str(s) ==> toml_of(v) == TomlView::Str(s),
        v matches JsonView::Bool(b) ==> toml_of(v) == TomlView::Bool(b),
        v is Null ==> (toml_of(v) matches TomlView::Str(s) && s.len() == 0),
        v is Num ==> (v.as_i64() matches Some(n) ==> toml_of(v) == TomlView::Int(n)),
        v matches JsonView::Num(n) && v.as_i64() is None ==> toml_of(v) == TomlView::Float(
            Some(nearest_fraction(v->Num_0)),
        ),
{
}

/// Every entry of an object stands in the table under its key; of entries with one key
/// the last one does.
pub proof fn law_object_is_kept_in_toml(e: Seq<(Seq<char>, JsonView)>, i: int, key: Seq<char>)
    requires
        0 <= i < e.len(),
        forall|k: int| i < k < e.len() ==> (#[trigger] e[k]).0 != e[i].0,
    ensures
        toml_of(JsonView::Object(e)).get(e[i].0) == Some(toml_of(e[i].1)),
        (forall|k: int| 0 <= k < e.len() ==> (#[trigger] e[k]).0 != key) ==> toml_of(JsonView::Object(e)).get(key) is None,
{
    let t = toml_entries_of(e);
    lemma_toml_entries(e);
    assert forall|k: int| i < k < t.len() implies (#[trigger] t[k]).0 != t[i].0 by {
        assert(e[k].0 != e[i].0);
    }
    crate::ordered::law_last_value_counts(t, i);
    if forall|k: int| 0 <= k < e.len() ==> (#[trigger] e[k]).0 != key {
        assert forall|k: int| 0 <= k < t.len() implies (#[trigger] t[k]).0 != key by {
            assert(e[k].0 != key);
        }
        crate::ordered::law_nothing_is_put_elsewhere(t, key);
    }
}

/// The entries stand for one another, one by one.
proof fn lemma_toml_entries(e: Seq<(Seq<char>, JsonView)>)
    ensures
        toml_entries_of(e).len() == e.len(),
        forall|k: int|
            0 <= k < e.len() ==> (#[trigger] toml_entries_of(e)[k]).0 == e[k].0 && toml_entries_of(e)[k].1 == toml_of(
                e[k].1,
            ),
    decreases e.len(),
{
    if e.len() > 0 {
        let d = e.drop_last();
        lemma_toml_entries(d);
        let t = toml_entries_of(e);
        assert forall|k: int| 0 <= k < e.len() implies (#[trigger] t[k]).0 == e[k].0 && t[k].1 == toml_of(e[k].1) by {
            if k < d.len() {
                assert(t[k] == toml_entries_of(d)[k]);
                assert(d[k] == e[k]);
            }
        }
    }
}

/// Every item of an array and every entry of a table is read, in order and under its key;
/// other values are read as what they are.
pub proof fn law_toml_is_read_whole(t: TomlView, i: int)
    ensures
        t matches TomlView::Array(a) ==> (json_of(t) matches JsonView::Array(b) && b.len() == a.len() && (0 <= i < a.len()
            ==> b[i] == json_of(a[i]))),
        t matches TomlView::Table(a) ==> (json_of(t) matches JsonView::Object(b) && b.len() == a.len() && (0 <= i < a.len()
            ==> b[i].0 == a[i].0 && b[i].1 == json_of(a[i].1))),
        t matches TomlView::Str(s) ==> json_of(t) == JsonView::Str(s),
        t matches TomlView::Int(n) ==> json_of(t) == crate::json::whole(n),
        t matches TomlView::Bool(b) ==> json_of(t) == JsonView::Bool(b),
        t matches TomlView::Datetime(s) ==> json_of(t) == JsonView::Str(s),
        t matches TomlView::Float(Some(s)) ==> json_of(t) == JsonView::Num(NumberView::Float(s)),
        t == TomlView::Float(None) ==> json_of(t) == JsonView::Null,
{
}

} // verus!
