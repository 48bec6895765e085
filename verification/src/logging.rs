//! Timestamps, run ids, and the log of events.
use vstd::prelude::*;

use crate::json::{entries_view, fixed_point, fixed_point_text, law_canonical_is_normal, list_view, object, text_value, Json, JsonView, NumberView};
use crate::json_codec::{compact, compact_text, is_written, json_parse, parse_json, reads_as, READ_DEPTH};
use crate::numbers::{decimal, decimal_text, hexadecimal, hexadecimal_text, is_digit, law_filling_keeps_the_value, lemma_decimal, signed_decimal, signed_decimal_text, value_of, zero_padded, zero_padded_text};
use crate::model::maybe_text;
use crate::text::{contains, contains_of, lemma_replace_char, lemma_subst_absent, lemma_subst_add, replace, replace_of, same, subst_of};
use crate::ordered::{keys_ascend, lookup, precedes};
use crate::toml_doc::{all_shown, all_shown_in_lines, are_sound_tables, is_bare_key, is_shown, is_sound, is_sound_table, json_of, literal_text, literal_value, parse_toml, quoted_value, read_view, reads_tables, table_text, table_value, tables_text, tables_value, toml_entries_view, toml_list_view, toml_parse, toml_to_json, Literal, Toml, TomlView};

verus! {

// ---------------------------------------------------------------------------
// The clock
// ---------------------------------------------------------------------------

/// A moment in universal time.
#[derive(Clone, Copy)]
pub struct Moment {
    pub year: i32,
    pub month: u8,
    pub day: u8,
    pub hour: u8,
    pub minute: u8,
    pub second: u8,
    pub nanosecond: u32,
}

impl Moment {
    /// The parts are those of a moment that a clock can show.
    pub open spec fn on_clock(self) -> bool {
        &&& -9999 <= self.year <= 9999
        &&& 1 <= self.month <= 12
        &&& 1 <= self.day <= 31
        &&& self.hour < 24
        &&& self.minute < 60
        &&& self.second < 60
        &&& self.nanosecond < 1_000_000_000
    }
}

/// The present moment: the parts of `time::OffsetDateTime::now_utc`.
#[verifier::external_body]
fn present() -> (r: Moment)
    ensures
        r.on_clock(),
{
    let now = time::OffsetDateTime::now_utc();
    Moment {
        year: now.year(),
        month: u8::from(now.month()),
        day: now.day(),
        hour: now.hour(),
        minute: now.minute(),
        second: now.second(),
        nanosecond: now.nanosecond(),
    }
}

/// All characters from the `i`th up to the `n`th are digits.
pub open spec fn are_digits(s: Seq<char>, i: int, n: int) -> bool {
    forall|k: int| i <= k < n ==> is_digit(#[trigger] s[k])
}

/// A text of the form `2024-01-31T23:59:59Z`, with or without a fraction of up to nine
/// digits, of which the last is no zero.
pub open spec fn is_timestamp(s: Seq<char>) -> bool {
    &&& s.len() >= 20
    &&& are_digits(s, 0, 4) && s[4] == '-'
    &&& are_digits(s, 5, 7) && s[7] == '-'
    &&& are_digits(s, 8, 10) && s[10] == 'T'
    &&& are_digits(s, 11, 13) && s[13] == ':'
    &&& are_digits(s, 14, 16) && s[16] == ':'
    &&& are_digits(s, 17, 19)
    &&& s.len() > 20 ==> 22 <= s.len() <= 30 && s[19] == '.' && are_digits(s, 20, s.len() - 1) && s[s.len() - 2] != '0'
    &&& s.last() == 'Z'
}

/// The present moment in words: `time::OffsetDateTime::now_utc` in the format
/// `Rfc3339`, which has no words for a year below zero. The format writes the year with
/// four digits, the other parts with two, and nanoseconds other than none as a fraction
/// without zeros at its end.
#[verifier::external_body]
fn present_text() -> (r: Option<String>)
    ensures
        r matches Some(s) ==> is_timestamp(s@),
{
    time::OffsetDateTime::now_utc().format(&time::format_description::well_known::Rfc3339).ok()
}

/// A moment in words, or the beginning of time where there are none.
pub fn timestamp_or_epoch(text: Option<String>) -> (r: String)
    ensures
        r@ == (match text {
            Some(s) => s@,
            None => "1970-01-01T00:00:00Z"@,
        }),
{
    match text {
        Some(s) => s,
        None => String::from_str("1970-01-01T00:00:00Z"),
    }
}

/// The present moment in words.
pub fn iso_utc_now() -> (r: String)
    ensures
        is_timestamp(r@),
{
    proof { reveal_strlit("1970-01-01T00:00:00Z"); }
    timestamp_or_epoch(present_text())
}

// ---------------------------------------------------------------------------
// Run ids
// ---------------------------------------------------------------------------

/// A number with a sign, filled up with zeros to a width.
pub open spec fn signed_padded(n: int, width: nat) -> Seq<char> {
    if n < 0 {
        seq!['-'] + zero_padded(decimal((-n) as nat), (width - 1) as nat)
    } else {
        zero_padded(decimal(n as nat), width)
    }
}

/// A number of two digits.
pub open spec fn two_digits(n: int) -> Seq<char> {
    zero_padded(decimal(n as nat), 2)
}

/// What tells runs of one second apart, out of the process and the clock.
pub open spec fn run_suffix(pid: int, nanosecond: int) -> int {
    (pid * 0x9E37_79B9_7F4A_7C15 + nanosecond) % 0x100_0000
}

/// The id of a run that begins at a moment in a process.
pub open spec fn run_id_of(t: Moment, pid: int) -> Seq<char> {
    signed_padded(t.year as int, 4) + two_digits(t.month as int) + two_digits(t.day as int) + "-"@ + two_digits(
        t.hour as int,
    ) + two_digits(t.minute as int) + two_digits(t.second as int) + "-"@ + zero_padded(
        hexadecimal(run_suffix(pid, t.nanosecond as int) as nat),
        6,
    )
}

/// A number of two digits.
fn two_digits_text(n: u8) -> (r: String)
    ensures
        r@ == two_digits(n as int),
{
    zero_padded_text(decimal_text(n as u64).as_str(), 2)
}

/// What tells runs of one second apart.
fn suffix_of(pid: u32, nanosecond: u32) -> (r: u64)
    ensures
        r == run_suffix(pid as int, nanosecond as int),
{
    let factor: u64 = 0x9E37_79B9_7F4A_7C15;
    let product = (pid as u64).wrapping_mul(factor);
    let sum = product.wrapping_add(nanosecond as u64);
    let low = sum & 0xFF_FFFF;
    assert(low == sum % 0x100_0000) by (bit_vector)
        requires
            low == sum & 0xFF_FFFF,
    ;
    proof {
        let p = pid as int * 0x9E37_79B9_7F4A_7C15;
        let n = nanosecond as int;
        let m = 0x1_0000_0000_0000_0000int;
        assert(pid as int * factor as int == p);
        assert(product as int == p % m);
        assert(sum as int == (p % m + n) % m);
        vstd::arithmetic::div_mod::lemma_add_mod_noop(p, n, m);
        vstd::arithmetic::div_mod::lemma_add_mod_noop(p % m, n, m);
        assert(sum as int == (p + n) % m) by {
            assert(n % m == n) by {
                vstd::arithmetic::div_mod::lemma_small_mod(n as nat, m as nat);
            }
            vstd::arithmetic::div_mod::lemma_mod_twice(p, m);
        }
        vstd::arithmetic::div_mod::lemma_mod_mod(p + n, 0x100_0000, 0x100_0000_0000);
        assert(0x100_0000 * 0x100_0000_0000 == m);
    }
    low
}

/// The id of a run that begins at a moment in a process.
pub fn run_id_text(t: Moment, pid: u32) -> (r: String)
    ensures
        r@ == run_id_of(t, pid as int),
{
    let mut out = String::new();
    if t.year < 0 {
        out.push('-');
        assert(out@ =~= seq!['-']);
        let year = (-(t.year as i64)) as u64;
        out.append(zero_padded_text(decimal_text(year).as_str(), 3).as_str());
    } else {
        out = zero_padded_text(decimal_text(t.year as u64).as_str(), 4);
    }
    out.append(two_digits_text(t.month).as_str());
    out.append(two_digits_text(t.day).as_str());
    out.append("-");
    out.append(two_digits_text(t.hour).as_str());
    out.append(two_digits_text(t.minute).as_str());
    out.append(two_digits_text(t.second).as_str());
    out.append("-");
    out.append(zero_padded_text(hexadecimal_text(suffix_of(pid, t.nanosecond)).as_str(), 6).as_str());
    out
}

/// An id for a run that begins now in the process `pid`.
pub fn new_run_id(pid: u32) -> (r: String)
    ensures
        exists|t: Moment| t.on_clock() && r@ == #[trigger] run_id_of(t, pid as int),
{
    let t = present();
    run_id_text(t, pid)
}

// ---------------------------------------------------------------------------
// The text of an event
// ---------------------------------------------------------------------------

/// A text of one line, as it stands between double quotes.
pub open spec fn escaped(s: Seq<char>) -> Seq<char> {
    replace_of(replace_of(replace_of(s, "\\"@, "\\\\"@), "\""@, "\\\""@), "\t"@, "\\t"@)
}

/// A text of several lines, as it stands between double quotes.
pub open spec fn escaped_lines(s: Seq<char>) -> Seq<char> {
    replace_of(
        replace_of(replace_of(replace_of(s, "\\"@, "\\\\"@), "\""@, "\\\""@), "\n"@, "\\n"@),
        "\r"@,
        "\\r"@,
    )
}

/// The text has several lines.
pub open spec fn has_lines(s: Seq<char>) -> bool {
    contains_of(s, "\n"@) || contains_of(s, "\r"@)
}

/// A value as it stands in the log; null is left out. A text of several lines stands
/// between triple quotes where it can; an array or an object stands as a text.
pub open spec fn literal_of(v: JsonView) -> Option<Seq<char>> {
    match v {
        JsonView::Null => None,
        JsonView::Bool(b) => Some(if b {
            "true"@
        } else {
            "false"@
        }),
        JsonView::Num(n) => Some(
            match v.as_i64() {
                Some(i) => signed_decimal(i),
                None => match v.as_u64() {
                    Some(u) => decimal(u as nat),
                    None => fixed_point(n, 6),
                },
            },
        ),
        JsonView::Str(s) => Some(
            if !has_lines(s) {
                "\""@ + escaped(s) + "\""@
            } else if !contains_of(s, "'''"@) {
                "'''\n"@ + s + "'''"@
            } else {
                "\""@ + escaped_lines(s) + "\""@
            },
        ),
        _ => Some("\""@ + escaped_lines(compact(v)) + "\""@),
    }
}

/// The lines of the entries of an event.
pub open spec fn event_lines(entries: Seq<(Seq<char>, JsonView)>) -> Seq<char>
    decreases entries.len(),
{
    if entries.len() == 0 {
        "\n[[event]]"@
    } else {
        let before = event_lines(entries.drop_last());
        match literal_of(entries.last().1) {
            Some(s) => before + "\n"@ + entries.last().0 + " = "@ + s,
            None => before,
        }
    }
}

/// The arrays and objects among the fields are written so that they can be read again.
pub open spec fn has_written_fields(entries: Seq<(Seq<char>, JsonView)>) -> bool {
    forall|i: int|
        0 <= i < entries.len() && ((#[trigger] entries[i]).1 is Array || entries[i].1 is Object) ==> is_written(
            entries[i].1,
        )
}

/// The entries of an event.
pub open spec fn event_entries(event: JsonView) -> Seq<(Seq<char>, JsonView)> {
    match event {
        JsonView::Object(e) => e,
        _ => Seq::empty(),
    }
}

/// What is added to the log for an event.
pub open spec fn event_block(event: JsonView) -> Seq<char> {
    event_lines(event_entries(event)) + "\n"@
}

/// An event with a time, unless it has one.
pub open spec fn stamped(event: JsonView, ts: Seq<char>) -> JsonView {
    if event.get("ts"@) is Some {
        event
    } else {
        event.with("ts"@, JsonView::Str(ts))
    }
}

/// A text of one line, as it stands between double quotes.
fn escape_basic(s: &str) -> (r: String)
    ensures
        r@ == escaped(s@),
{
    let a = replace(s, "\\", "\\\\");
    let b = replace(a.as_str(), "\"", "\\\"");
    replace(b.as_str(), "\t", "\\t")
}

/// A text of several lines, as it stands between double quotes.
fn escape_basic_with_newlines(s: &str) -> (r: String)
    ensures
        r@ == escaped_lines(s@),
{
    let a = replace(s, "\\", "\\\\");
    let b = replace(a.as_str(), "\"", "\\\"");
    let c = replace(b.as_str(), "\n", "\\n");
    replace(c.as_str(), "\r", "\\r")
}

/// A text between marks.
fn between(open: &str, s: &str, close: &str) -> (r: String)
    ensures
        r@ == open@ + s@ + close@,
{
    let mut out = String::from_str(open);
    out.append(s);
    out.append(close);
    out
}

/// A value as it stands in the log; null is left out.
pub fn toml_val(v: &Json) -> (r: Option<String>)
    ensures
        maybe_text(r) == literal_of(v@),
        v@ is Array || v@ is Object ==> is_written(v@),
{
    match v {
        Json::Null => None,
        Json::Bool(b) => Some(String::from_str(if *b { "true" } else { "false" })),
        Json::Num(n) => Some(
            match n.as_i64() {
                Some(i) => signed_decimal_text(i),
                None => match n.as_u64() {
                    Some(u) => decimal_text(u),
                    None => fixed_point_text(n, 6),
                },
            },
        ),
        Json::Str(s) => {
            let s = s.as_str();
            Some(
                if !contains(s, "\n") && !contains(s, "\r") {
                    between("\"", escape_basic(s).as_str(), "\"")
                } else if !contains(s, "'''") {
                    between("'''\n", s, "'''")
                } else {
                    between("\"", escape_basic_with_newlines(s).as_str(), "\"")
                },
            )
        },
        Json::Array(_) => Some(
            between("\"", escape_basic_with_newlines(compact_text(v).as_str()).as_str(), "\""),
        ),
        Json::Object(_) => Some(
            between("\"", escape_basic_with_newlines(compact_text(v).as_str()).as_str(), "\""),
        ),
    }
}

/// What is added to the log for an event. The arrays and objects in it are written so
/// that they can be read again.
pub fn event_text(event: &Json) -> (r: String)
    ensures
        r@ == event_block(event@),
        has_written_fields(event_entries(event@)),
{
    let mut out = String::from_str("\n[[event]]");
    if let Json::Object(entries) = event {
        let ghost e = entries_view(entries@);
        assert(event@->Object_0 =~= e);
        assert(e.take(0) =~= Seq::empty());
        for i in 0..entries.len()
            invariant
                e == entries_view(entries@),
                out@ == event_lines(e.take(i as int)),
                has_written_fields(e.take(i as int)),
        {
            proof {
                assert(e.take(i + 1).drop_last() =~= e.take(i as int));
                assert(e.take(i + 1).last() == (entries@[i as int].0@, entries@[i as int].1@));
            }
            if let Some(s) = toml_val(&entries[i].1) {
                out.append("\n");
                out.append(entries[i].0.as_str());
                out.append(" = ");
                out.append(s.as_str());
            }
            proof {
                let (before, after) = (e.take(i as int), e.take(i + 1));
                assert forall|k: int| 0 <= k < after.len() && ((#[trigger] after[k]).1 is Array || after[k].1 is Object)
                    implies is_written(after[k].1) by {
                    assert(k < i ==> after[k] == before[k]);
                }
            }
        }
        assert(e.take(entries@.len() as int) =~= e);
    }
    out.append("\n");
    out
}

/// An event with a time, unless it has one.
pub fn with_timestamp(event: &Json, ts: &str) -> (r: Json)
    ensures
        r@ == stamped(event@, ts@),
{
    if event.get("ts").is_some() {
        event.copy()
    } else {
        event.copy().with("ts", text_value(ts))
    }
}

/// Where a log lies: at the path that is given, or at the usual one where none is.
pub open spec fn log_path_of(path: Option<Seq<char>>) -> Seq<char> {
    match path {
        Some(p) => if p.len() > 0 {
            p
        } else {
            ".csloop/logs/toolusage.toml"@
        },
        None => ".csloop/logs/toolusage.toml"@,
    }
}

/// A log of events in a file.
pub struct ToolLogToml {
    pub path: String,
}

impl ToolLogToml {
    /// The log at a path, or at the usual one where none is given.
    pub fn new(path: &Option<String>) -> (r: ToolLogToml)
        ensures
            r.path@ == log_path_of(maybe_text(*path)),
    {
        match path {
            Some(p) => if !p.as_str().is_empty() {
                ToolLogToml { path: p.clone() }
            } else {
                ToolLogToml { path: String::from_str(".csloop/logs/toolusage.toml") }
            },
            None => ToolLogToml { path: String::from_str(".csloop/logs/toolusage.toml") },
        }
    }

    /// What is added to the file for an event at a time.
    pub fn render(&self, event: &Json, ts: &str) -> (r: String)
        ensures
            r@ == event_block(stamped(event@, ts@)),
            has_written_fields(event_entries(stamped(event@, ts@))),
    {
        event_text(&with_timestamp(event, ts))
    }
}

// ---------------------------------------------------------------------------
// Reading the log
// ---------------------------------------------------------------------------

/// The field holds JSON as a text.
pub open spec fn holds_json(key: Seq<char>) -> bool {
    key == "args"@ || key == "usage"@
}

/// A field as it is read: JSON that was kept as a text becomes a value again.
pub open spec fn field_of(key: Seq<char>, v: TomlView) -> JsonView {
    match json_of(v) {
        JsonView::Str(s) => if holds_json(key) {
            match json_parse(s) {
                Ok(parsed) => parsed,
                Err(_) => JsonView::Str(s),
            }
        } else {
            JsonView::Str(s)
        },
        other => other,
    }
}

/// An event as it is read.
pub open spec fn event_of(table: Seq<(Seq<char>, TomlView)>) -> JsonView {
    JsonView::Object(Seq::new(table.len(), |i: int| (table[i].0, field_of(table[i].0, table[i].1))))
}

/// The events of a list, as they are read.
pub open spec fn events_in(items: Seq<TomlView>) -> Seq<JsonView>
    decreases items.len(),
{
    if items.len() == 0 {
        Seq::empty()
    } else {
        match items.last() {
            TomlView::Table(t) => events_in(items.drop_last()).push(event_of(t)),
            _ => events_in(items.drop_last()),
        }
    }
}

/// The events of a log, given its parsed document.
pub open spec fn events_of(doc: TomlView) -> Seq<JsonView> {
    match doc.get("event"@) {
        Some(TomlView::Array(items)) => events_in(items),
        _ => Seq::empty(),
    }
}

/// The text of a log of events.
pub open spec fn log_of(events: Seq<JsonView>) -> Seq<char>
    decreases events.len(),
{
    if events.len() == 0 {
        Seq::empty()
    } else {
        log_of(events.drop_last()) + event_block(events.last())
    }
}

/// The log keeps the field as it is: a text without control characters that the log
/// does not escape, and none in a field for JSON that is JSON itself; a whole number of
/// 64 bits with a sign; an array or an object in a field for JSON whose text reads as
/// it; or a truth value. A null is left out.
pub open spec fn is_kept(key: Seq<char>, v: JsonView) -> bool {
    match v {
        JsonView::Null => true,
        JsonView::Bool(_) => true,
        JsonView::Num(_) => v.as_i64() is Some,
        JsonView::Str(s) => {
            &&& holds_json(key) ==> json_parse(s) is Err
            &&& if !has_lines(s) {
                all_shown(s)
            } else if !contains_of(s, "'''"@) {
                all_shown_in_lines(s)
            } else {
                forall|i: int| 0 <= i < s.len() ==> is_shown(#[trigger] s[i]) || s[i] == '\n' || s[i] == '\r'
            }
        },
        _ => holds_json(key) && all_shown(compact(v)) && reads_as(compact(v), v),
    }
}

/// The field can be logged without loss, whatever the JSON that is made of it: a text,
/// not in a field for JSON, without control characters that the log does not escape; a
/// whole number of 64 bits with a sign; an array or an object in a field for JSON, with
/// its keys in order, without fractions and control characters, that does not nest too
/// deep; or a truth value. A null is left out.
pub open spec fn is_loggable(key: Seq<char>, v: JsonView) -> bool {
    match v {
        JsonView::Str(_) => !holds_json(key) && is_kept(key, v),
        JsonView::Array(_) => holds_json(key) && is_plain_value(v),
        JsonView::Object(_) => holds_json(key) && is_plain_value(v),
        _ => is_kept(key, v),
    }
}

/// The value is in order, has no fractions, no control character that JSON does not
/// escape, and does not nest too deep to be read.
pub open spec fn is_plain_value(v: JsonView) -> bool {
    v.canonical() && v.plain(READ_DEPTH as nat) && v.free_of('\u{7f}')
}

/// The event can be logged without loss, but for the fields that are null.
pub open spec fn is_loggable_event(event: JsonView) -> bool {
    event matches JsonView::Object(e) && keys_ascend(e) && forall|i: int|
        0 <= i < e.len() ==> is_bare_key((#[trigger] e[i]).0) && is_loggable(e[i].0, e[i].1)
}

/// The log keeps the event, but for the fields that are null.
pub open spec fn is_kept_event(event: JsonView) -> bool {
    event matches JsonView::Object(e) && keys_ascend(e) && forall|i: int|
        0 <= i < e.len() ==> is_bare_key((#[trigger] e[i]).0) && is_kept(e[i].0, e[i].1)
}

/// The fields of an event that are not null.
pub open spec fn said(entries: Seq<(Seq<char>, JsonView)>) -> Seq<(Seq<char>, JsonView)>
    decreases entries.len(),
{
    if entries.len() == 0 {
        Seq::empty()
    } else if entries.last().1 is Null {
        said(entries.drop_last())
    } else {
        said(entries.drop_last()).push(entries.last())
    }
}

/// What a log gives back of events: each without the fields that are null.
pub open spec fn given_back(events: Seq<JsonView>) -> Seq<JsonView> {
    events.map_values(|e: JsonView| JsonView::Object(said(event_entries(e))))
}

/// Where the text is the log of events that the log keeps, they are read.
pub open spec fn reads_log(text: Seq<char>, read: Seq<JsonView>) -> bool {
    forall|events: Seq<JsonView>|
        text == #[trigger] log_of(events) && (forall|i: int| 0 <= i < events.len() ==> is_kept_event(#[trigger] events[i]))
            ==> read == given_back(events)
}

/// A field as it is read.
fn read_field(key: &str, v: &Toml) -> (r: Json)
    ensures
        r@ == field_of(key@, v@),
{
    let j = toml_to_json(v);
    if same(key, "args") || same(key, "usage") {
        if let Json::Str(s) = &j {
            if let Ok(parsed) = parse_json(s.as_str()) {
                return parsed;
            }
        }
    }
    j
}

/// An event as it is read.
fn read_event(table: &Vec<(String, Toml)>) -> (r: Json)
    ensures
        r@ == event_of(toml_entries_view(table@)),
{
    let ghost all = toml_entries_view(table@);
    let mut out: Vec<(String, Json)> = Vec::new();
    for i in 0..table.len()
        invariant
            all == toml_entries_view(table@),
            out@.len() == i,
            forall|k: int|
                0 <= k < i ==> (#[trigger] out@[k]).0@ == all[k].0 && out@[k].1@ == field_of(all[k].0, all[k].1),
    {
        assert(all[i as int] == (table@[i as int].0@, table@[i as int].1@));
        out.push((table[i].0.clone(), read_field(table[i].0.as_str(), &table[i].1)));
    }
    assert(entries_view(out@) =~= event_of(all)->Object_0);
    object(out)
}

/// The events of a log, given its parsed document.
pub fn read_events(doc: &Toml) -> (r: Vec<Json>)
    ensures
        list_view(r@) == events_of(doc@),
{
    let mut out: Vec<Json> = Vec::new();
    assert(list_view(out@) =~= Seq::empty());
    let items = match doc.get("event") {
        Some(v) => v.as_array(),
        None => None,
    };
    if let Some(items) = items {
        let ghost all = toml_list_view(items@);
        assert(all.take(0) =~= Seq::empty());
        for i in 0..items.len()
            invariant
                all == toml_list_view(items@),
                list_view(out@) == events_in(all.take(i as int)),
        {
            proof {
                assert(all.take(i + 1).drop_last() =~= all.take(i as int));
                assert(all.take(i + 1).last() == items@[i as int]@);
            }
            if let Toml::Table(t) = &items[i] {
                assert(items@[i as int]@->Table_0 =~= toml_entries_view(t@));
                let event = read_event(t);
                proof { crate::json::lemma_list_push(out@, event); }
                out.push(event);
            }
        }
        assert(all.take(items@.len() as int) =~= all);
    }
    out
}

/// The events of the text of a log; none where the text is no TOML. A log gives back
/// the events that were added to it, as far as it keeps them.
pub fn read_toml_events(text: &str) -> (r: Vec<Json>)
    ensures
        list_view(r@) == (match toml_parse(text@) {
            Ok(doc) => events_of(doc),
            Err(_) => Seq::empty(),
        }),
        reads_log(text@, list_view(r@)),
{
    let parsed = parse_toml(text);
    let ghost read = read_view(parsed);
    proof {
        assert forall|events: Seq<JsonView>|
            text@ == #[trigger] log_of(events) && (forall|i: int|
                0 <= i < events.len() ==> is_kept_event(#[trigger] events[i])) implies read is Some && events_of(read->0)
            == given_back(events) by {
            law_log_reads_back(events, read);
        }
    }
    match parsed {
        Ok(doc) => read_events(&doc),
        Err(_) => {
            let out: Vec<Json> = Vec::new();
            assert(list_view(out@) =~= Seq::empty());
            out
        },
    }
}

// ---------------------------------------------------------------------------
// Laws
// ---------------------------------------------------------------------------

/// One character of a text of one line, as it stands between double quotes.
spec fn escaped_char(c: char) -> Seq<char> {
    if c == '\\' {
        seq!['\\', '\\']
    } else if c == '"' {
        seq!['\\', '"']
    } else if c == '\t' {
        seq!['\\', 't']
    } else {
        seq![c]
    }
}

/// One character of a text of several lines, as it stands between double quotes.
spec fn escaped_line_char(c: char) -> Seq<char> {
    if c == '\\' {
        seq!['\\', '\\']
    } else if c == '"' {
        seq!['\\', '"']
    } else if c == '\n' {
        seq!['\\', 'n']
    } else if c == '\r' {
        seq!['\\', 'r']
    } else {
        seq![c]
    }
}

/// What the log keeps of a text between double quotes stands for that text.
pub proof fn law_escaped_text_reads_back(s: Seq<char>)
    ensures
        quoted_value(escaped(s)) == Some(s),
        quoted_value(escaped_lines(s)) == Some(s),
    decreases s.len(),
{
    lemma_escapes(s);
    if s.len() == 0 {
        assert(escaped(s) =~= Seq::empty());
        assert(escaped_lines(s) =~= Seq::empty());
        assert(quoted_value(escaped(s))->Some_0 =~= s);
        assert(quoted_value(escaped_lines(s))->Some_0 =~= s);
    } else {
        let rest = s.skip(1);
        lemma_escapes(rest);
        law_escaped_text_reads_back(rest);
        lemma_quoted_step(escaped_char(s[0]), escaped(rest), s[0], rest);
        lemma_quoted_step(escaped_line_char(s[0]), escaped_lines(rest), s[0], rest);
        assert(seq![s[0]] + rest =~= s);
    }
}

/// A character between double quotes stands for itself before what follows.
proof fn lemma_quoted_step(head: Seq<char>, tail: Seq<char>, c: char, rest: Seq<char>)
    requires
        head == escaped_char(c) || head == escaped_line_char(c),
        quoted_value(tail) == Some(rest),
    ensures
        quoted_value(head + tail) == Some(seq![c] + rest),
{
    let all = head + tail;
    if head.len() == 2 {
        assert(all.skip(2) =~= tail);
    } else {
        assert(all.skip(1) =~= tail);
    }
}

/// A text is escaped character by character.
proof fn lemma_escapes(s: Seq<char>)
    ensures
        s.len() == 0 ==> escaped(s).len() == 0 && escaped_lines(s).len() == 0,
        s.len() > 0 ==> escaped(s) == escaped_char(s[0]) + escaped(s.skip(1)),
        s.len() > 0 ==> escaped_lines(s) == escaped_line_char(s[0]) + escaped_lines(s.skip(1)),
{
    lemma_literals();
    lemma_as_substs(s);
    if s.len() > 0 {
        let c = s[0];
        let rest = s.skip(1);
        lemma_as_substs(rest);
        let one = seq![c];
        assert(one.skip(1) =~= Seq::empty());
        assert(s =~= one + rest);
        let (b, q, t, n, r) = ("\\\\"@, "\\\""@, "\\t"@, "\\n"@, "\\r"@);
        // Backslashes.
        let b1 = subst_of(one, '\\', b);
        let b2 = subst_of(rest, '\\', b);
        lemma_subst_add(one, rest, '\\', b);
        lemma_subst_one(c, b);
        assert(b1 =~= (if c == '\\' { seq!['\\', '\\'] } else { one }));
        // Quotes.
        let q1 = subst_of(b1, '"', q);
        let q2 = subst_of(b2, '"', q);
        lemma_subst_add(b1, b2, '"', q);
        if c == '"' {
            lemma_subst_one('"', q);
            assert(q1 =~= seq!['\\', '"']);
        } else {
            lemma_subst_absent(b1, '"', q);
        }
        // Tabs.
        let t1 = subst_of(q1, '\t', t);
        lemma_subst_add(q1, q2, '\t', t);
        if c == '\t' {
            lemma_subst_one('\t', t);
            assert(t1 =~= seq!['\\', 't']);
        } else {
            lemma_subst_absent(q1, '\t', t);
        }
        // Line ends.
        let n1 = subst_of(q1, '\n', n);
        let n2 = subst_of(q2, '\n', n);
        lemma_subst_add(q1, q2, '\n', n);
        if c == '\n' {
            lemma_subst_one('\n', n);
            assert(n1 =~= seq!['\\', 'n']);
        } else {
            lemma_subst_absent(q1, '\n', n);
        }
        let r1 = subst_of(n1, '\r', r);
        lemma_subst_add(n1, n2, '\r', r);
        if c == '\r' {
            lemma_subst_one('\r', r);
            assert(r1 =~= seq!['\\', 'r']);
        } else {
            lemma_subst_absent(n1, '\r', r);
        }
    }
}

/// A text of one character is replaced whole.
proof fn lemma_subst_one(c: char, new: Seq<char>)
    ensures
        subst_of(seq![c], c, new) == new,
{
    let rest = seq![c].skip(1);
    assert(rest =~= Seq::empty());
    assert(subst_of(rest, c, new) =~= Seq::empty());
    assert(new + subst_of(rest, c, new) =~= new);
}

/// The escapes, character by character.
proof fn lemma_literals()
    ensures
        "\\\\"@ == seq!['\\', '\\'],
        "\\\""@ == seq!['\\', '"'],
        "\\t"@ == seq!['\\', 't'],
        "\\n"@ == seq!['\\', 'n'],
        "\\r"@ == seq!['\\', 'r'],
        "\\"@ == seq!['\\'],
        "\""@ == seq!['"'],
        "\t"@ == seq!['\t'],
        "\n"@ == seq!['\n'],
        "\r"@ == seq!['\r'],
{
    reveal_strlit("\\\\");
    reveal_strlit("\\\"");
    reveal_strlit("\\t");
    reveal_strlit("\\n");
    reveal_strlit("\\r");
    reveal_strlit("\\");
    reveal_strlit("\"");
    reveal_strlit("\t");
    reveal_strlit("\n");
    reveal_strlit("\r");
    assert("\\\\"@ =~= seq!['\\', '\\']);
    assert("\\\""@ =~= seq!['\\', '"']);
    assert("\\t"@ =~= seq!['\\', 't']);
    assert("\\n"@ =~= seq!['\\', 'n']);
    assert("\\r"@ =~= seq!['\\', 'r']);
    assert("\\"@ =~= seq!['\\']);
    assert("\""@ =~= seq!['"']);
    assert("\t"@ =~= seq!['\t']);
    assert("\n"@ =~= seq!['\n']);
    assert("\r"@ =~= seq!['\r']);
}

/// The escapes replace single characters.
proof fn lemma_as_substs(s: Seq<char>)
    ensures
        ({
            let q = subst_of(subst_of(s, '\\', "\\\\"@), '"', "\\\""@);
            &&& escaped(s) == subst_of(q, '\t', "\\t"@)
            &&& escaped_lines(s) == subst_of(subst_of(q, '\n', "\\n"@), '\r', "\\r"@)
        }),
{
    lemma_literals();
    let b = subst_of(s, '\\', "\\\\"@);
    let q = subst_of(b, '"', "\\\""@);
    let n = subst_of(q, '\n', "\\n"@);
    lemma_replace_char(s, '\\', "\\\\"@);
    lemma_replace_char(b, '"', "\\\""@);
    lemma_replace_char(q, '\t', "\\t"@);
    lemma_replace_char(q, '\n', "\\n"@);
    lemma_replace_char(n, '\r', "\\r"@);
}

/// How a value that the log keeps is written.
pub open spec fn written_as(v: JsonView) -> Literal {
    match v {
        JsonView::Bool(b) => Literal::Bool(b),
        JsonView::Num(_) => Literal::Int(v.as_i64()->0),
        JsonView::Str(s) => if !has_lines(s) {
            Literal::Quoted(escaped(s))
        } else if !contains_of(s, "'''"@) {
            Literal::Lines(s)
        } else {
            Literal::Quoted(escaped_lines(s))
        },
        _ => Literal::Quoted(escaped_lines(compact(v))),
    }
}

/// How the fields of an event are written.
pub open spec fn written_fields(entries: Seq<(Seq<char>, JsonView)>) -> Seq<(Seq<char>, Literal)>
    decreases entries.len(),
{
    if entries.len() == 0 {
        Seq::empty()
    } else if entries.last().1 is Null {
        written_fields(entries.drop_last())
    } else {
        written_fields(entries.drop_last()).push((entries.last().0, written_as(entries.last().1)))
    }
}

/// How events are written.
pub open spec fn written_events(events: Seq<JsonView>) -> Seq<Seq<(Seq<char>, Literal)>> {
    events.map_values(|e: JsonView| written_fields(event_entries(e)))
}

/// The characters of an escaped text may stand as they are.
proof fn lemma_escaped_is_shown(s: Seq<char>)
    ensures
        all_shown(s) ==> all_shown(escaped(s)),
        (forall|i: int| 0 <= i < s.len() ==> is_shown(#[trigger] s[i]) || s[i] == '\n' || s[i] == '\r') ==> all_shown(
            escaped_lines(s),
        ),
    decreases s.len(),
{
    lemma_escapes(s);
    if s.len() > 0 {
        let rest = s.skip(1);
        lemma_escaped_is_shown(rest);
        if all_shown(s) {
            assert(is_shown(s[0]));
            assert forall|i: int| 0 <= i < rest.len() implies is_shown(#[trigger] rest[i]) by {
                assert(rest[i] == s[i + 1]);
            }
            let (head, tail) = (escaped_char(s[0]), escaped(rest));
            assert forall|i: int| 0 <= i < (head + tail).len() implies is_shown(#[trigger] (head + tail)[i]) by {
                assert(i >= head.len() ==> (head + tail)[i] == tail[i - head.len()]);
            }
        }
        if forall|i: int| 0 <= i < s.len() ==> is_shown(#[trigger] s[i]) || s[i] == '\n' || s[i] == '\r' {
            assert(is_shown(s[0]) || s[0] == '\n' || s[0] == '\r');
            assert forall|i: int| 0 <= i < rest.len() implies is_shown(#[trigger] rest[i]) || rest[i] == '\n' || rest[i]
                == '\r' by {
                assert(rest[i] == s[i + 1]);
            }
            let (head, tail) = (escaped_line_char(s[0]), escaped_lines(rest));
            assert forall|i: int| 0 <= i < (head + tail).len() implies is_shown(#[trigger] (head + tail)[i]) by {
                assert(i >= head.len() ==> (head + tail)[i] == tail[i - head.len()]);
            }
        }
    }
}

/// A value that the log keeps is written as it must be, and reads as it was.
proof fn lemma_kept_value(key: Seq<char>, v: JsonView)
    requires
        is_kept(key, v),
        !(v is Null),
    ensures
        literal_of(v) == Some(literal_text(written_as(v))),
        is_sound(written_as(v)),
        field_of(key, literal_value(written_as(v))) == v,
{
    match v {
        JsonView::Str(s) => {
            law_escaped_text_reads_back(s);
            lemma_escaped_is_shown(s);
        },
        JsonView::Array(_) => {
            law_escaped_text_reads_back(compact(v));
            lemma_escaped_is_shown(compact(v));
        },
        JsonView::Object(_) => {
            law_escaped_text_reads_back(compact(v));
            lemma_escaped_is_shown(compact(v));
        },
        _ => {},
    }
}

/// The keys of the fields that are written come before what all keys come before.
proof fn lemma_written_keys(entries: Seq<(Seq<char>, JsonView)>, key: Seq<char>)
    requires
        forall|i: int| 0 <= i < entries.len() ==> precedes((#[trigger] entries[i]).0, key),
    ensures
        forall|i: int| 0 <= i < written_fields(entries).len() ==> precedes((#[trigger] written_fields(entries)[i]).0, key),
    decreases entries.len(),
{
    if entries.len() > 0 {
        let front = entries.drop_last();
        assert forall|i: int| 0 <= i < front.len() implies precedes((#[trigger] front[i]).0, key) by {
            assert(front[i] == entries[i]);
        }
        lemma_written_keys(front, key);
        let w = written_fields(entries);
        let n = entries.len() - 1;
        assert(precedes(entries[n].0, key));
        assert forall|i: int| 0 <= i < w.len() implies precedes((#[trigger] w[i]).0, key) by {
            assert(i < written_fields(front).len() ==> w[i] == written_fields(front)[i]);
        }
    }
}

/// The fields that the log keeps are written as they must be, and read as they were.
proof fn lemma_kept_fields(entries: Seq<(Seq<char>, JsonView)>)
    requires
        is_kept_event(JsonView::Object(entries)),
    ensures
        event_lines(entries) == table_text("event"@, written_fields(entries)),
        is_sound_table(written_fields(entries)),
        written_fields(entries).len() == said(entries).len(),
        forall|i: int|
            0 <= i < said(entries).len() ==> (#[trigger] said(entries)[i]).0 == written_fields(entries)[i].0 && said(
                entries,
            )[i].1 == field_of(written_fields(entries)[i].0, literal_value(written_fields(entries)[i].1)),
    decreases entries.len(),
{
    reveal_strlit("\n[[event]]");
    reveal_strlit("\n[[");
    reveal_strlit("event");
    reveal_strlit("]]");
    if entries.len() == 0 {
        assert("\n[[event]]"@ =~= "\n[["@ + "event"@ + "]]"@);
    } else {
        let front = entries.drop_last();
        let (key, v) = entries.last();
        let n = entries.len() - 1;
        assert(entries[n] == (key, v));
        assert forall|i: int| 0 <= i < front.len() implies is_bare_key((#[trigger] front[i]).0) && is_kept(
            front[i].0,
            front[i].1,
        ) by {
            assert(front[i] == entries[i]);
        }
        assert(keys_ascend(front)) by {
            assert forall|i: int, j: int| 0 <= i < j < front.len() implies precedes(
                #[trigger] front[i].0,
                #[trigger] front[j].0,
            ) by {
                assert(front[i] == entries[i] && front[j] == entries[j]);
            }
        }
        lemma_kept_fields(front);
        if !(v is Null) {
            lemma_kept_value(key, v);
            assert forall|i: int| 0 <= i < front.len() implies precedes((#[trigger] front[i]).0, key) by {
                assert(front[i] == entries[i]);
            }
            lemma_written_keys(front, key);
            let w = written_fields(entries);
            let w0 = written_fields(front);
            assert(w.drop_last() =~= w0);
            assert(w.last() == (key, written_as(v)));
            assert forall|i: int, j: int| 0 <= i < j < w.len() implies precedes(
                #[trigger] w[i].0,
                #[trigger] w[j].0,
            ) by {
                assert(w[i] == w0[i]);
                assert(j < w0.len() ==> w[j] == w0[j]);
            }
            assert forall|i: int| 0 <= i < w.len() implies is_bare_key((#[trigger] w[i]).0) && is_sound(w[i].1) by {
                assert(i < w0.len() ==> w[i] == w0[i]);
            }
            let (t, t0) = (said(entries), said(front));
            assert forall|i: int| 0 <= i < t.len() implies (#[trigger] t[i]).0 == w[i].0 && t[i].1 == field_of(
                w[i].0,
                literal_value(w[i].1),
            ) by {
                assert(i < t0.len() ==> t[i] == t0[i] && w[i] == w0[i]);
            }
        }
    }
}

/// The log of events that it keeps is written as it must be.
proof fn lemma_log_is_sound(events: Seq<JsonView>)
    requires
        forall|i: int| 0 <= i < events.len() ==> is_kept_event(#[trigger] events[i]),
    ensures
        log_of(events) == tables_text("event"@, written_events(events)),
        are_sound_tables("event"@, written_events(events)),
    decreases events.len(),
{
    reveal_strlit("event");
    let w = written_events(events);
    assert forall|i: int| 0 <= i < w.len() implies is_sound_table(#[trigger] w[i]) by {
        assert(is_kept_event(events[i]));
        lemma_kept_fields(event_entries(events[i]));
    }
    if events.len() > 0 {
        let front = events.drop_last();
        assert forall|i: int| 0 <= i < front.len() implies is_kept_event(#[trigger] front[i]) by {
            assert(front[i] == events[i]);
        }
        lemma_log_is_sound(front);
        assert(w.drop_last() =~= written_events(front));
        assert(is_kept_event(events[events.len() - 1]));
        lemma_kept_fields(event_entries(events.last()));
        assert(log_of(events) =~= tables_text("event"@, w));
    }
}

/// The events of the tables that a log consists of.
proof fn lemma_events_in_log(events: Seq<JsonView>)
    requires
        forall|i: int| 0 <= i < events.len() ==> is_kept_event(#[trigger] events[i]),
    ensures
        events_in(written_events(events).map_values(|t: Seq<(Seq<char>, Literal)>| table_value(t))) == given_back(events),
    decreases events.len(),
{
    let w = written_events(events);
    let tables = w.map_values(|t: Seq<(Seq<char>, Literal)>| table_value(t));
    if events.len() == 0 {
        assert(given_back(events) =~= Seq::empty());
    } else {
        let front = events.drop_last();
        assert forall|i: int| 0 <= i < front.len() implies is_kept_event(#[trigger] front[i]) by {
            assert(front[i] == events[i]);
        }
        lemma_events_in_log(front);
        assert(tables.drop_last() =~= written_events(front).map_values(|t: Seq<(Seq<char>, Literal)>| table_value(t)));
        let e = event_entries(events.last());
        assert(is_kept_event(events[events.len() - 1]));
        lemma_kept_fields(e);
        assert(tables.last() == table_value(written_fields(e)));
        assert(event_of(tables.last()->Table_0) == JsonView::Object(said(e))) by {
            assert(event_of(tables.last()->Table_0)->Object_0 =~= said(e));
        }
        assert(given_back(events) =~= given_back(front).push(JsonView::Object(said(e))));
    }
}

/// What is read of a log is what was added to it: where the reader takes a list of
/// tables for what it is, the log of events that it keeps gives them back, each
/// without the fields that are null.
pub proof fn law_log_reads_back(events: Seq<JsonView>, read: Option<TomlView>)
    requires
        forall|i: int| 0 <= i < events.len() ==> is_kept_event(#[trigger] events[i]),
        reads_tables(log_of(events), read),
    ensures
        read is Some,
        events_of(read->0) == given_back(events),
{
    lemma_log_is_sound(events);
    lemma_events_in_log(events);
    let w = written_events(events);
    let doc = tables_value("event"@, w);
    assert(read == Some(doc));
    if events.len() == 0 {
        assert(given_back(events) =~= Seq::empty());
        assert(doc.get("event"@) is None);
    } else {
        let entries = doc->Table_0;
        assert(entries[0].0 == "event"@);
        assert(lookup(entries, "event"@) == Some(entries[0].1));
    }
}

/// An event that can be logged without loss is kept, once its fields are written.
pub proof fn law_loggable_event_is_kept(event: JsonView)
    requires
        is_loggable_event(event),
        has_written_fields(event_entries(event)),
    ensures
        is_kept_event(event),
{
    let e = event->Object_0;
    assert forall|i: int| 0 <= i < e.len() implies is_bare_key((#[trigger] e[i]).0) && is_kept(e[i].0, e[i].1) by {
        let v = e[i].1;
        assert(is_loggable(e[i].0, v));
        if v is Array || v is Object {
            assert(is_written(event_entries(event)[i].1));
            law_canonical_is_normal(v);
            let text = compact(v);
            assert forall|k: int| 0 <= k < text.len() implies is_shown(#[trigger] text[k]) by {
                assert(text[k] != '\u{7f}') by {
                    if text[k] == '\u{7f}' {
                        assert(text.contains('\u{7f}'));
                    }
                }
            }
        }
    }
}

/// Events that were logged one after the other, and can be logged without loss, come
/// back from the log in that order, each without the fields that are null.
pub proof fn law_logged_events_read_back(events: Seq<JsonView>, read: Option<TomlView>)
    requires
        forall|i: int|
            0 <= i < events.len() ==> is_loggable_event(#[trigger] events[i]) && has_written_fields(
                event_entries(events[i]),
            ),
        reads_tables(log_of(events), read),
    ensures
        read is Some,
        events_of(read->0) == given_back(events),
{
    assert forall|i: int| 0 <= i < events.len() implies is_kept_event(#[trigger] events[i]) by {
        law_loggable_event_is_kept(events[i]);
    }
    law_log_reads_back(events, read);
}

/// A run id has the date, the time and six digits that tell runs apart.
pub proof fn law_run_id_has_its_length(t: Moment, pid: int)
    requires
        t.on_clock(),
        t.year >= 0,
    ensures
        run_id_of(t, pid).len() == 22,
{
    assert(0 <= run_suffix(pid, t.nanosecond as int) < 0x100_0000);
    lemma_decimal_len(t.year as nat);
    lemma_decimal_len(t.month as nat);
    lemma_decimal_len(t.day as nat);
    lemma_decimal_len(t.hour as nat);
    lemma_decimal_len(t.minute as nat);
    lemma_decimal_len(t.second as nat);
    lemma_hexadecimal_len(run_suffix(pid, t.nanosecond as int) as nat);
    reveal_strlit("-");
    assert("-"@.len() == 1);
}

proof fn lemma_decimal_len(n: nat)
    ensures
        n < 100 ==> decimal(n).len() <= 2,
        n < 10000 ==> decimal(n).len() <= 4,
{
    reveal_with_fuel(decimal, 5);
}

proof fn lemma_hexadecimal_len(n: nat)
    ensures
        n < 0x100_0000 ==> hexadecimal(n).len() <= 6,
{
    reveal_with_fuel(hexadecimal, 7);
}

/// A run id gives the date and the time of its beginning, digit by digit.
pub proof fn law_run_id_gives_the_moment(t: Moment, pid: int)
    requires
        t.on_clock(),
        t.year >= 0,
    ensures
        ({
            let id = run_id_of(t, pid);
            &&& value_of(id.subrange(0, 4)) == t.year
            &&& value_of(id.subrange(4, 6)) == t.month
            &&& value_of(id.subrange(6, 8)) == t.day
            &&& id[8] == '-'
            &&& value_of(id.subrange(9, 11)) == t.hour
            &&& value_of(id.subrange(11, 13)) == t.minute
            &&& value_of(id.subrange(13, 15)) == t.second
            &&& id[15] == '-'
            &&& id.subrange(16, 22) == zero_padded(hexadecimal(run_suffix(pid, t.nanosecond as int) as nat), 6)
        }),
{
    let id = run_id_of(t, pid);
    law_run_id_has_its_length(t, pid);
    assert(0 <= run_suffix(pid, t.nanosecond as int) < 0x100_0000);
    lemma_two_digits(t.month as nat);
    lemma_two_digits(t.day as nat);
    lemma_two_digits(t.hour as nat);
    lemma_two_digits(t.minute as nat);
    lemma_two_digits(t.second as nat);
    lemma_decimal_len(t.year as nat);
    lemma_decimal(t.year as nat);
    law_filling_keeps_the_value(decimal(t.year as nat), 4);
    lemma_hexadecimal_len(run_suffix(pid, t.nanosecond as int) as nat);
    reveal_strlit("-");
    assert(id.subrange(0, 4) =~= signed_padded(t.year as int, 4));
    assert(id.subrange(4, 6) =~= two_digits(t.month as int));
    assert(id.subrange(6, 8) =~= two_digits(t.day as int));
    assert(id.subrange(9, 11) =~= two_digits(t.hour as int));
    assert(id.subrange(11, 13) =~= two_digits(t.minute as int));
    assert(id.subrange(13, 15) =~= two_digits(t.second as int));
    assert(id.subrange(16, 22) =~= zero_padded(hexadecimal(run_suffix(pid, t.nanosecond as int) as nat), 6));
}

proof fn lemma_two_digits(n: nat)
    requires
        n < 100,
    ensures
        two_digits(n as int).len() == 2,
        value_of(two_digits(n as int)) == n,
{
    lemma_decimal_len(n);
    lemma_decimal(n);
    law_filling_keeps_the_value(decimal(n), 2);
}

/// The lines of an event are those of its fields, one behind the other; a field that is
/// null has none.
pub proof fn law_every_field_has_its_line(
    a: Seq<(Seq<char>, JsonView)>,
    b: Seq<(Seq<char>, JsonView)>,
    key: Seq<char>,
    v: JsonView,
)
    ensures
        event_lines(a + b) == event_lines(a) + event_lines(b).skip("\n[[event]]"@.len() as int),
        event_lines(Seq::empty()) == "\n[[event]]"@,
        v is Null ==> event_lines(a.push((key, v))) == event_lines(a),
        !(v is Null) ==> literal_of(v) is Some && event_lines(a.push((key, v))) == event_lines(a) + "\n"@ + key + " = "@
            + literal_of(v)->0,
    decreases b.len(),
{
    assert(a.push((key, v)).drop_last() =~= a);
    let head = "\n[[event]]"@;
    lemma_event_lines_begin(b);
    if b.len() == 0 {
        assert(a + b =~= a);
        assert(event_lines(b).skip(head.len() as int) =~= Seq::empty());
        assert(event_lines(a) + Seq::<char>::empty() =~= event_lines(a));
    } else {
        let front = b.drop_last();
        assert((a + b).drop_last() =~= a + front);
        law_every_field_has_its_line(a, front, key, v);
        lemma_event_lines_begin(front);
        match literal_of(b.last().1) {
            Some(s) => {
                let added = "\n"@ + b.last().0 + " = "@ + s;
                assert(event_lines(b) =~= event_lines(front) + added);
                assert(event_lines(b).skip(head.len() as int) =~= event_lines(front).skip(head.len() as int) + added);
                assert(event_lines(a + b) =~= event_lines(a + front) + added);
                assert(event_lines(a + b) =~= event_lines(a) + event_lines(b).skip(head.len() as int));
            },
            None => {},
        }
    }
}

proof fn lemma_event_lines_begin(e: Seq<(Seq<char>, JsonView)>)
    ensures
        event_lines(e).len() >= "\n[[event]]"@.len(),
    decreases e.len(),
{
    if e.len() > 0 {
        lemma_event_lines_begin(e.drop_last());
    }
}

/// A number stands in the log in whole digits where it is whole, or else with six digits
/// behind the point; a truth value in its word.
pub proof fn law_numbers_are_logged(n: NumberView)
    ensures
        JsonView::Num(n).as_i64() matches Some(i) ==> literal_of(JsonView::Num(n)) == Some(signed_decimal(i)),
        JsonView::Num(n).as_i64() is None && (JsonView::Num(n).as_u64() matches Some(u) && u >= 0) ==> literal_of(
            JsonView::Num(n),
        ) == Some(decimal(JsonView::Num(n).as_u64()->0 as nat)),
        JsonView::Num(n).as_i64() is None && JsonView::Num(n).as_u64() is None ==> literal_of(JsonView::Num(n)) == Some(
            fixed_point(n, 6),
        ),
        literal_of(JsonView::Bool(true)) == Some("true"@),
        literal_of(JsonView::Bool(false)) == Some("false"@),
{
}

/// The text of a log is that of its events, one behind the other.
pub proof fn law_log_grows(a: Seq<JsonView>, b: Seq<JsonView>, event: JsonView)
    ensures
        log_of(a + b) == log_of(a) + log_of(b),
        log_of(seq![event]) == event_lines(event_entries(event)) + "\n"@,
        log_of(Seq::empty()).len() == 0,
    decreases b.len(),
{
    assert(seq![event].drop_last() =~= Seq::empty());
    assert(log_of(seq![event].drop_last()) =~= Seq::empty());
    assert(log_of(seq![event]) =~= event_block(event));
    if b.len() == 0 {
        assert(a + b =~= a);
        assert(log_of(a) + log_of(b) =~= log_of(a));
    } else {
        assert((a + b).drop_last() =~= a + b.drop_last());
        law_log_grows(a, b.drop_last(), event);
        assert(log_of(a + b) =~= log_of(a) + log_of(b));
    }
}

/// Every table of a log is read as an event, in order.
pub proof fn law_every_table_is_an_event(items: Seq<TomlView>)
    ensures
        events_in(items) == items.filter_map(
            |t: TomlView|
                match t {
                    TomlView::Table(e) => Some(event_of(e)),
                    _ => None,
                },
        ),
    decreases items.len(),
{
    if items.len() > 0 {
        law_every_table_is_an_event(items.drop_last());
    }
}

/// Every field of an event is read under its key, in order; a text in a field for JSON is
/// read as what it says, where it says something.
pub proof fn law_every_field_is_read(table: Seq<(Seq<char>, TomlView)>, i: int)
    requires
        0 <= i < table.len(),
    ensures
        ({
            let e = event_of(table)->Object_0;
            let key = table[i].0;
            let v = json_of(table[i].1);
            &&& event_of(table) is Object
            &&& e.len() == table.len()
            &&& e[i].0 == key
            &&& !(v is Str) ==> e[i].1 == v
            &&& key != "args"@ && key != "usage"@ ==> e[i].1 == v
            &&& (key == "args"@ || key == "usage"@) && v is Str ==> {
                &&& json_parse(v->Str_0) matches Ok(parsed) ==> e[i].1 == parsed
                &&& json_parse(v->Str_0) is Err ==> e[i].1 == v
            }
        }),
{
}

/// An event gets the time where it has none; all else of it stays.
pub proof fn law_event_is_stamped_once(event: JsonView, ts: Seq<char>, key: Seq<char>)
    requires
        event is Object,
    ensures
        event.get("ts"@) is Some ==> stamped(event, ts) == event,
        event.get("ts"@) is None ==> stamped(event, ts).get("ts"@) == Some(JsonView::Str(ts)),
        key != "ts"@ ==> stamped(event, ts).get(key) == event.get(key),
{
    crate::ordered::law_put_then_lookup(event->Object_0, "ts"@, JsonView::Str(ts), key);
}

/// Of an event all fields come back that are not null.
pub proof fn law_null_fields_leave(entries: Seq<(Seq<char>, JsonView)>)
    ensures
        said(entries) == entries.filter(|e: (Seq<char>, JsonView)| !(e.1 is Null)),
    decreases entries.len(),
{
    reveal(Seq::filter);
    if entries.len() > 0 {
        law_null_fields_leave(entries.drop_last());
    }
}

/// A log lies where it is asked to, or else at the usual place.
pub proof fn law_log_lies_where_asked(path: Seq<char>)
    ensures
        path.len() > 0 ==> log_path_of(Some(path)) == path,
        log_path_of(Some(Seq::empty())) == ".csloop/logs/toolusage.toml"@,
        log_path_of(None) == ".csloop/logs/toolusage.toml"@,
{
}

} // verus!
