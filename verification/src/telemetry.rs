//! The records of a run's phases.
use vstd::prelude::*;

use crate::agent::{reject_word, rejected_view, results_view, RejectedCall, RejectedView, RunResult, ToolResult, ToolResultView};
use crate::json::{array, entries_view, entry, fraction_of, list_view, nearest_fraction, number_view, object, object3, object4, object5, signed_value, text_value, whole, Json, JsonView, NumberView};
use crate::agent::events::says;
use crate::numbers::{law_filling_keeps_the_value, lemma_decimal};
use crate::numbers::{decimal, decimal_text, zero_padded, zero_padded_text};
use crate::ordered::{comes_before, precedes};
use crate::path_text::{file_name, file_name_of};
use crate::text::{clip, texts};
use crate::toml_doc::{toml_document, toml_of, toml_text};
use crate::usage::TokenUsage;

verus! {

/// How many characters of a text are kept.
pub const MAX_FIELD_CHARS: usize = 500;

// ---------------------------------------------------------------------------
// Long texts
// ---------------------------------------------------------------------------

/// A text cut behind `limit` characters, with its length.
pub open spec fn capped_text(s: Seq<char>, limit: nat) -> Seq<char> {
    if s.len() > limit {
        s.take(limit as int) + "... [truncated, "@ + decimal(s.len()) + " chars total]"@
    } else {
        s
    }
}

/// A value with every long text in it cut.
pub open spec fn capped(v: JsonView, limit: nat) -> JsonView
    decreases v,
{
    match v {
        JsonView::Str(s) => JsonView::Str(capped_text(s, limit)),
        JsonView::Array(a) => JsonView::Array(
            Seq::new(
                a.len(),
                |i: int|
                    if 0 <= i < a.len() {
                        capped(a[i], limit)
                    } else {
                        arbitrary()
                    },
            ),
        ),
        JsonView::Object(e) => JsonView::Object(
            Seq::new(
                e.len(),
                |i: int|
                    if 0 <= i < e.len() {
                        (e[i].0, capped(e[i].1, limit))
                    } else {
                        arbitrary()
                    },
            ),
        ),
        _ => v,
    }
}

/// A value with every long text in it cut.
pub fn cap_strings(value: &Json, limit: usize) -> (r: Json)
    ensures
        r@ == capped(value@, limit as nat),
    decreases value,
{
    match value {
        Json::Str(s) => {
            let n = s.as_str().unicode_len();
            if n > limit {
                let mut out = clip(s.as_str(), limit);
                out.append("... [truncated, ");
                out.append(decimal_text(n as u64).as_str());
                out.append(" chars total]");
                Json::Str(out)
            } else {
                Json::Str(s.clone())
            }
        },
        Json::Array(v) => {
            let mut out: Vec<Json> = Vec::new();
            for i in 0..v.len()
                invariant
                    out@.len() == i,
                    forall|k: int| 0 <= k < i ==> (#[trigger] out@[k])@ == capped(v@[k]@, limit as nat),
                    value matches Json::Array(w) && w == v,
            {
                out.push(cap_strings(&v[i], limit));
            }
            let r = Json::Array(out);
            assert(r@->Array_0 =~= capped(value@, limit as nat)->Array_0);
            r
        },
        Json::Object(v) => {
            let mut out: Vec<(String, Json)> = Vec::new();
            for i in 0..v.len()
                invariant
                    out@.len() == i,
                    forall|k: int|
                        0 <= k < i ==> (#[trigger] out@[k]).0@ == v@[k].0@ && out@[k].1@ == capped(
                            v@[k].1@,
                            limit as nat,
                        ),
                    value matches Json::Object(w) && w == v,
            {
                out.push((v[i].0.clone(), cap_strings(&v[i].1, limit)));
            }
            let r = Json::Object(out);
            assert(r@->Object_0 =~= capped(value@, limit as nat)->Object_0);
            r
        },
        other => other.copy(),
    }
}

// ---------------------------------------------------------------------------
// The record of a phase
// ---------------------------------------------------------------------------

/// What is known of a phase beside what came of it.
pub struct PhaseInfo {
    pub run_id: String,
    pub loop_index: u32,
    pub phase: String,
    pub model: String,
    pub task_file: String,
    pub workdir: String,
}

/// How many of the calls failed.
pub open spec fn failed_calls(results: Seq<ToolResultView>) -> nat
    decreases results.len(),
{
    if results.len() == 0 {
        0
    } else {
        failed_calls(results.drop_last()) + (if results.last().ok {
            0nat
        } else {
            1nat
        })
    }
}

/// The row of a call that was carried out.
pub open spec fn result_row(t: ToolResultView) -> JsonView {
    JsonView::Object(
        seq![
            ("args"@, capped(t.args, MAX_FIELD_CHARS as nat)),
            ("name"@, JsonView::Str(t.name)),
            ("ok"@, JsonView::Bool(t.ok)),
            ("output_preview"@, JsonView::Str(t.output_preview)),
        ],
    )
}

/// The row of a call that was not carried out.
pub open spec fn rejected_row(r: RejectedView) -> JsonView {
    JsonView::Object(
        seq![
            ("args"@, capped(r.args, MAX_FIELD_CHARS as nat)),
            ("name"@, JsonView::Str(r.name)),
            ("reason"@, JsonView::Str(reject_word(r.reason))),
        ],
    )
}

/// The token counts of a phase.
pub open spec fn usage_table(u: TokenUsage) -> JsonView {
    JsonView::Object(
        seq![
            ("cache_read"@, whole((u.cache_read as i64) as int)),
            ("cache_write"@, whole((u.cache_write as i64) as int)),
            ("input"@, whole((u.input as i64) as int)),
            ("output"@, whole((u.output as i64) as int)),
            ("reasoning"@, whole((u.reasoning as i64) as int)),
        ],
    )
}

/// The counts of the calls of a phase.
pub open spec fn counts_table(executed: nat, rejected: nat, errors: nat) -> JsonView {
    JsonView::Object(
        seq![
            ("errors"@, whole((errors as i64) as int)),
            ("executed"@, whole((executed as i64) as int)),
            ("ok"@, whole(((executed - errors) as i64) as int)),
            ("rejected"@, whole((rejected as i64) as int)),
        ],
    )
}

/// The record of a phase. The duration is in seconds.
pub open spec fn phase_record(info: PhaseInfo, r: RunResult, duration: NumberView, created_at: Seq<char>) -> JsonView {
    let results = results_view(r.tool_results@);
    let rejected = rejected_view(r.rejected_calls@);
    JsonView::Object(
        seq![
            ("created_at"@, JsonView::Str(created_at)),
            ("duration_s"@, JsonView::Num(NumberView::Float(nearest_fraction(duration)))),
            ("final_text_present"@, JsonView::Bool(r.final_text is Some)),
            ("iterations"@, whole(r.iterations as int)),
            ("loop_index"@, whole(info.loop_index as int)),
            ("model"@, JsonView::Str(info.model@)),
            ("phase"@, JsonView::Str(info.phase@)),
            ("rejected_calls"@, JsonView::Array(rejected.map_values(|c: RejectedView| rejected_row(c)))),
            ("run_id"@, JsonView::Str(info.run_id@)),
            ("stop_reason"@, JsonView::Str(r.stop_reason@)),
            ("task_file"@, JsonView::Str(info.task_file@)),
            ("tool_calls"@, counts_table(results.len(), rejected.len(), failed_calls(results))),
            ("tools"@, JsonView::Array(results.map_values(|t: ToolResultView| result_row(t)))),
            ("usage"@, usage_table(r.usage)),
            ("workdir"@, JsonView::Str(info.workdir@)),
        ],
    )
}

/// The name of the file that holds the record of a phase.
pub open spec fn phase_file_of(loop_index: nat, phase: Seq<char>) -> Seq<char> {
    "loop_"@ + zero_padded(decimal(loop_index), 3) + "_"@ + phase + ".toml"@
}

/// How many of the calls failed.
fn count_failed(results: &Vec<ToolResult>) -> (r: usize)
    ensures
        r == failed_calls(results_view(results@)),
        r <= results@.len(),
{
    let ghost all = results_view(results@);
    let mut n: usize = 0;
    assert(all.take(0) =~= Seq::empty());
    for i in 0..results.len()
        invariant
            all == results_view(results@),
            n == failed_calls(all.take(i as int)),
            n <= i,
    {
        proof {
            assert(all.take(i + 1).drop_last() =~= all.take(i as int));
            assert(all.take(i + 1).last() == results@[i as int]@);
        }
        if !results[i].ok {
            n = n + 1;
        }
    }
    assert(all.take(results@.len() as int) =~= all);
    n
}

/// The rows of the calls that were carried out.
fn result_rows(results: &Vec<ToolResult>) -> (r: Json)
    ensures
        r@ == JsonView::Array(results_view(results@).map_values(|t: ToolResultView| result_row(t))),
{
    let mut out: Vec<Json> = Vec::new();
    for i in 0..results.len()
        invariant
            out@.len() == i,
            forall|k: int| 0 <= k < i ==> (#[trigger] out@[k])@ == result_row(results@[k]@),
    {
        let t = &results[i];
        out.push(
            object4(
                "args",
                cap_strings(&t.args, MAX_FIELD_CHARS),
                "name",
                text_value(t.name.as_str()),
                "ok",
                Json::Bool(t.ok),
                "output_preview",
                text_value(t.output_preview.as_str()),
            ),
        );
    }
    assert(list_view(out@) =~= results_view(results@).map_values(|t: ToolResultView| result_row(t)));
    array(out)
}

/// The rows of the calls that were not carried out.
fn rejected_rows(rejected: &Vec<RejectedCall>) -> (r: Json)
    ensures
        r@ == JsonView::Array(rejected_view(rejected@).map_values(|c: RejectedView| rejected_row(c))),
{
    let mut out: Vec<Json> = Vec::new();
    for i in 0..rejected.len()
        invariant
            out@.len() == i,
            forall|k: int| 0 <= k < i ==> (#[trigger] out@[k])@ == rejected_row(rejected@[k]@),
    {
        let c = &rejected[i];
        out.push(
            object3(
                "args",
                cap_strings(&c.args, MAX_FIELD_CHARS),
                "name",
                text_value(c.name.as_str()),
                "reason",
                text_value(c.reason.as_str()),
            ),
        );
    }
    assert(list_view(out@) =~= rejected_view(rejected@).map_values(|c: RejectedView| rejected_row(c)));
    array(out)
}

/// The token counts of a phase.
fn usage_value(u: &TokenUsage) -> (r: Json)
    ensures
        r@ == usage_table(*u),
{
    object5(
        "cache_read",
        signed_value(u.cache_read as i64),
        "cache_write",
        signed_value(u.cache_write as i64),
        "input",
        signed_value(u.input as i64),
        "output",
        signed_value(u.output as i64),
        "reasoning",
        signed_value(u.reasoning as i64),
    )
}

/// The record of a phase. The duration is in seconds.
pub fn phase_value(info: &PhaseInfo, r: &RunResult, duration_s: &serde_json::Number, created_at: &str) -> (j: Json)
    ensures
        j@ == phase_record(*info, *r, number_view(*duration_s), created_at@),
{
    let errors = count_failed(&r.tool_results);
    let executed = r.tool_results.len();
    let rejected = r.rejected_calls.len();
    let ok = executed - errors;
    assert(results_view(r.tool_results@).len() == executed);
    assert(rejected_view(r.rejected_calls@).len() == rejected);
    let counts = object4(
        "errors",
        signed_value(errors as i64),
        "executed",
        signed_value(executed as i64),
        "ok",
        signed_value(ok as i64),
        "rejected",
        signed_value(rejected as i64),
    );
    let entries = vec![
        entry("created_at", text_value(created_at)),
        entry("duration_s", Json::Num(fraction_of(duration_s))),
        entry("final_text_present", Json::Bool(r.final_text.is_some())),
        entry("iterations", signed_value(r.iterations as i64)),
        entry("loop_index", signed_value(info.loop_index as i64)),
        entry("model", text_value(info.model.as_str())),
        entry("phase", text_value(info.phase.as_str())),
        entry("rejected_calls", rejected_rows(&r.rejected_calls)),
        entry("run_id", text_value(info.run_id.as_str())),
        entry("stop_reason", text_value(r.stop_reason.as_str())),
        entry("task_file", text_value(info.task_file.as_str())),
        entry("tool_calls", counts),
        entry("tools", result_rows(&r.tool_results)),
        entry("usage", usage_value(&r.usage)),
        entry("workdir", text_value(info.workdir.as_str())),
    ];
    assert(entries_view(entries@) =~= phase_record(*info, *r, number_view(*duration_s), created_at@)->Object_0);
    object(entries)
}

/// The text of the record of a phase; an error is given by its message.
pub fn phase_document(info: &PhaseInfo, r: &RunResult, duration_s: &serde_json::Number, created_at: &str) -> (t: Result<
    String,
    String,
>)
    ensures
        ({
            let doc = toml_text(toml_of(phase_record(*info, *r, number_view(*duration_s), created_at@)));
            match t {
                Ok(s) => (doc matches Ok(w) && w == s@),
                Err(e) => (doc matches Err(w) && w == e@),
            }
        }),
{
    toml_document(&phase_value(info, r, duration_s, created_at))
}

/// The name of the file that holds the record of a phase.
pub fn phase_file(loop_index: u32, phase: &str) -> (r: String)
    ensures
        r@ == phase_file_of(loop_index as nat, phase@),
{
    let mut out = String::from_str("loop_");
    out.append(zero_padded_text(decimal_text(loop_index as u64).as_str(), 3).as_str());
    out.append("_");
    out.append(phase);
    out.append(".toml");
    out
}

// ---------------------------------------------------------------------------
// The list of the phases
// ---------------------------------------------------------------------------

/// A sorted list with a text more: before the first that it precedes.
pub open spec fn placed(sorted: Seq<Seq<char>>, x: Seq<char>) -> Seq<Seq<char>>
    decreases sorted.len(),
{
    if sorted.len() == 0 {
        seq![x]
    } else if precedes(x, sorted.last()) {
        placed(sorted.drop_last(), x).push(sorted.last())
    } else {
        sorted.push(x)
    }
}

/// A list in order.
pub open spec fn sorted_of(names: Seq<Seq<char>>) -> Seq<Seq<char>>
    decreases names.len(),
{
    if names.len() == 0 {
        Seq::empty()
    } else {
        placed(sorted_of(names.drop_last()), names.last())
    }
}

/// The file names of a list of paths.
pub open spec fn file_names_of(paths: Seq<Seq<char>>) -> Seq<Seq<char>>
    decreases paths.len(),
{
    if paths.len() == 0 {
        Seq::empty()
    } else {
        match file_name_of(paths.last()) {
            Some(n) => file_names_of(paths.drop_last()).push(n),
            None => file_names_of(paths.drop_last()),
        }
    }
}

/// The list of the phases of a run.
pub open spec fn manifest_record(run: JsonView, phase_files: Seq<Seq<char>>, updated_at: Seq<char>) -> JsonView {
    JsonView::Object(
        seq![
            (
                "phase_files"@,
                JsonView::Array(
                    sorted_of(file_names_of(phase_files)).map_values(|s: Seq<char>| JsonView::Str(s)),
                ),
            ),
            ("run"@, run),
            ("updated_at"@, JsonView::Str(updated_at)),
        ],
    )
}

/// Puts a text into a sorted list.
fn place(sorted: &mut Vec<String>, x: String)
    ensures
        texts(final(sorted)@) == placed(texts(old(sorted)@), x@),
{
    let n = sorted.len();
    let ghost all = texts(sorted@);
    let mut i: usize = n;
    assert(all.take(n as int) =~= all);
    assert(placed(all, x@) + all.skip(n as int) =~= placed(all, x@));
    while i > 0 && comes_before(x.as_str(), sorted[i - 1].as_str())
        invariant
            i <= n == sorted@.len(),
            all == texts(sorted@),
            placed(all.take(i as int), x@) + all.skip(i as int) == placed(all, x@),
        decreases i,
    {
        proof {
            let t = all.take(i as int);
            assert(t.last() == sorted@[i - 1]@);
            assert(t.drop_last() =~= all.take(i - 1));
            assert(placed(all.take(i - 1), x@) + all.skip(i - 1) =~= placed(t, x@) + all.skip(i as int));
        }
        i = i - 1;
    }
    proof {
        let t = all.take(i as int);
        if i > 0 {
            assert(t.last() == sorted@[i - 1]@);
        } else {
            assert(t =~= Seq::empty());
        }
        assert(placed(t, x@) =~= t.push(x@));
    }
    let ghost xv = x@;
    sorted.insert(i, x);
    assert(texts(sorted@) =~= all.take(i as int).push(xv) + all.skip(i as int));
}

/// The file names of a list of paths, in order.
fn sorted_names(paths: &Vec<String>) -> (r: Vec<String>)
    ensures
        texts(r@) == sorted_of(file_names_of(texts(paths@))),
{
    let ghost all = texts(paths@);
    let mut out: Vec<String> = Vec::new();
    assert(all.take(0) =~= Seq::empty());
    assert(texts(out@) =~= Seq::empty());
    for i in 0..paths.len()
        invariant
            all == texts(paths@),
            texts(out@) == sorted_of(file_names_of(all.take(i as int))),
    {
        proof {
            assert(all.take(i + 1).drop_last() =~= all.take(i as int));
            assert(all.take(i + 1).last() == paths@[i as int]@);
        }
        if let Some(n) = file_name(paths[i].as_str()) {
            proof {
                let before = file_names_of(all.take(i as int));
                assert(before.push(n@).drop_last() =~= before);
            }
            place(&mut out, n);
        }
    }
    assert(all.take(paths@.len() as int) =~= all);
    out
}

/// The text of the list of the phases of a run; an error is given by its message.
pub fn manifest_document(run: &Json, phase_files: &Vec<String>, updated_at: &str) -> (t: Result<String, String>)
    ensures
        ({
            let doc = toml_text(toml_of(manifest_record(run@, texts(phase_files@), updated_at@)));
            match t {
                Ok(s) => (doc matches Ok(w) && w == s@),
                Err(e) => (doc matches Err(w) && w == e@),
            }
        }),
{
    let names = sorted_names(phase_files);
    let ghost all = texts(names@);
    let mut rows: Vec<Json> = Vec::new();
    for i in 0..names.len()
        invariant
            rows@.len() == i,
            forall|k: int| 0 <= k < i ==> (#[trigger] rows@[k])@ == JsonView::Str(names@[k]@),
    {
        rows.push(text_value(names[i].as_str()));
    }
    assert(list_view(rows@) =~= all.map_values(|s: Seq<char>| JsonView::Str(s)));
    toml_document(&object3("phase_files", array(rows), "run", run.copy(), "updated_at", text_value(updated_at)))
}

// ---------------------------------------------------------------------------
// Laws
// ---------------------------------------------------------------------------

/// No text in the value is longer than `n` characters.
pub open spec fn texts_upto(v: JsonView, n: nat) -> bool
    decreases v,
{
    match v {
        JsonView::Str(s) => s.len() <= n,
        JsonView::Array(a) => forall|i: int| 0 <= i < a.len() ==> texts_upto(#[trigger] a[i], n),
        JsonView::Object(e) => forall|i: int| 0 <= i < e.len() ==> texts_upto((#[trigger] e[i]).1, n),
        _ => true,
    }
}

/// A value without long texts is kept as it is.
pub proof fn law_short_texts_are_kept(v: JsonView, limit: nat)
    requires
        texts_upto(v, limit),
    ensures
        capped(v, limit) == v,
    decreases v,
{
    match v {
        JsonView::Array(a) => {
            assert forall|i: int| 0 <= i < a.len() implies capped(#[trigger] a[i], limit) == a[i] by {
                law_short_texts_are_kept(a[i], limit);
            }
            assert(capped(v, limit)->Array_0 =~= a);
        },
        JsonView::Object(e) => {
            assert forall|i: int| 0 <= i < e.len() implies capped((#[trigger] e[i]).1, limit) == e[i].1 by {
                law_short_texts_are_kept(e[i].1, limit);
            }
            assert(capped(v, limit)->Object_0 =~= e);
        },
        _ => {},
    }
}

/// No text that is kept is longer than the limit and the words that tell of its
/// length, whatever the value holds.
pub proof fn law_kept_texts_are_short(v: JsonView, limit: nat)
    requires
        texts_upto(v, u64::MAX as nat),
    ensures
        texts_upto(capped(v, limit), limit + 49),
    decreases v,
{
    match v {
        JsonView::Str(s) => {
            lemma_digits(s.len());
            reveal_strlit("... [truncated, ");
            reveal_strlit(" chars total]");
            assert("... [truncated, "@.len() == 16 && " chars total]"@.len() == 13);
        },
        JsonView::Array(a) => {
            let c = capped(v, limit)->Array_0;
            assert forall|i: int| 0 <= i < c.len() implies texts_upto(#[trigger] c[i], limit + 49) by {
                assert(texts_upto(a[i], u64::MAX as nat));
                law_kept_texts_are_short(a[i], limit);
            }
        },
        JsonView::Object(e) => {
            let c = capped(v, limit)->Object_0;
            assert forall|i: int| 0 <= i < c.len() implies texts_upto((#[trigger] c[i]).1, limit + 49) by {
                assert(texts_upto(e[i].1, u64::MAX as nat));
                law_kept_texts_are_short(e[i].1, limit);
            }
        },
        _ => {},
    }
}

/// A number of 64 bits has no more than twenty digits.
proof fn lemma_digits(n: nat)
    requires
        n <= u64::MAX,
    ensures
        decimal(n).len() <= 20,
{
    reveal_with_fuel(decimal, 21);
}

/// The file names of the phases are listed in order, and none is added or lost.
pub proof fn law_names_are_sorted(names: Seq<Seq<char>>)
    ensures
        sorted_of(names).to_multiset() == names.to_multiset(),
        forall|i: int, j: int|
            0 <= i < j < sorted_of(names).len() ==> !precedes(#[trigger] sorted_of(names)[j], #[trigger] sorted_of(names)[i]),
    decreases names.len(),
{
    if names.len() > 0 {
        let front = names.drop_last();
        law_names_are_sorted(front);
        lemma_placed(sorted_of(front), names.last());
        assert(names =~= front.push(names.last()));
        front.to_multiset_ensures();
        assert(names.to_multiset() =~= front.to_multiset().insert(names.last()));
    } else {
        assert(sorted_of(names) =~= names);
    }
}

proof fn lemma_placed(sorted: Seq<Seq<char>>, x: Seq<char>)
    requires
        forall|i: int, j: int| 0 <= i < j < sorted.len() ==> !precedes(#[trigger] sorted[j], #[trigger] sorted[i]),
    ensures
        placed(sorted, x).to_multiset() == sorted.to_multiset().insert(x),
        forall|i: int, j: int|
            0 <= i < j < placed(sorted, x).len() ==> !precedes(
                #[trigger] placed(sorted, x)[j],
                #[trigger] placed(sorted, x)[i],
            ),
        forall|i: int| 0 <= i < placed(sorted, x).len() ==> placed(sorted, x)[i] == x || sorted.contains(#[trigger] placed(sorted, x)[i]),
        placed(sorted, x).len() == sorted.len() + 1,
    decreases sorted.len(),
{
    let after = placed(sorted, x);
    if sorted.len() == 0 {
        sorted.to_multiset_ensures();
        assert(after =~= sorted.push(x));
        crate::ordered::lemma_precedes_irreflexive(x);
    } else {
        let front = sorted.drop_last();
        let last = sorted.last();
        assert(sorted =~= front.push(last));
        front.to_multiset_ensures();
        sorted.to_multiset_ensures();
        if precedes(x, last) {
            assert forall|i: int, j: int| 0 <= i < j < front.len() implies !precedes(#[trigger] front[j], #[trigger] front[i]) by {
                assert(!precedes(sorted[j], sorted[i]));
            }
            lemma_placed(front, x);
            let p = placed(front, x);
            p.to_multiset_ensures();
            assert(after.to_multiset() =~= sorted.to_multiset().insert(x));
            assert forall|i: int| 0 <= i < after.len() implies after[i] == x || sorted.contains(#[trigger] after[i]) by {
                if i < p.len() {
                    assert(after[i] == p[i]);
                    if p[i] != x {
                        assert(front.contains(p[i]));
                        let k = choose|k: int| 0 <= k < front.len() && front[k] == p[i];
                        assert(sorted[k] == p[i]);
                    }
                } else {
                    assert(after[i] == last);
                    assert(sorted[sorted.len() - 1] == last);
                }
            }
            assert forall|i: int, j: int| 0 <= i < j < after.len() implies !precedes(#[trigger] after[j], #[trigger] after[i]) by {
                if j < p.len() {
                    assert(after[j] == p[j] && after[i] == p[i]);
                } else {
                    assert(after[j] == last && after[i] == p[i]);
                    if p[i] == x {
                        lemma_not_both(x, last);
                    } else {
                        assert(front.contains(p[i]));
                        let k = choose|k: int| 0 <= k < front.len() && front[k] == p[i];
                        assert(sorted[k] == p[i] && sorted[sorted.len() - 1] == last);
                    }
                }
            }
        } else {
            assert forall|i: int| 0 <= i < after.len() implies after[i] == x || sorted.contains(#[trigger] after[i]) by {
                if i < sorted.len() {
                    assert(after[i] == sorted[i]);
                }
            }
            assert forall|i: int, j: int| 0 <= i < j < after.len() implies !precedes(#[trigger] after[j], #[trigger] after[i]) by {
                assert(after[i] == sorted[i]);
                if j < sorted.len() {
                    assert(after[j] == sorted[j]);
                } else {
                    assert(after[j] == x);
                    if i < sorted.len() - 1 && precedes(x, sorted[i]) {
                        assert(!precedes(last, sorted[i])) by {
                            assert(sorted[sorted.len() - 1] == last);
                        }
                        crate::ordered::lemma_precedes_total(x, last);
                        if x == last {
                        } else {
                            crate::ordered::lemma_precedes_transitive(last, x, sorted[i]);
                        }
                    }
                }
            }
        }
    }
}

/// Of two texts, at most one precedes the other.
proof fn lemma_not_both(a: Seq<char>, b: Seq<char>)
    requires
        precedes(a, b),
    ensures
        !precedes(b, a),
{
    if precedes(b, a) {
        crate::ordered::lemma_precedes_transitive(a, b, a);
        crate::ordered::lemma_precedes_irreflexive(a);
    }
}

/// A long text is cut behind the limit, and its whole length is told.
pub proof fn law_long_text_is_cut(s: Seq<char>, limit: nat)
    ensures
        s.len() <= limit ==> capped_text(s, limit) == s,
        s.len() > limit ==> capped_text(s, limit).take(limit as int) == s.take(limit as int) && capped_text(s, limit).skip(
            limit as int,
        ) == "... [truncated, "@ + decimal(s.len()) + " chars total]"@,
{
    if s.len() > limit {
        assert(capped_text(s, limit).take(limit as int) =~= s.take(limit as int));
        assert(capped_text(s, limit).skip(limit as int) =~= "... [truncated, "@ + decimal(s.len()) + " chars total]"@);
    }
}

/// Cutting the texts of a value keeps its shape: every element and every key, in order,
/// and everything that is no text.
pub proof fn law_cutting_keeps_the_shape(v: JsonView, limit: nat, i: int)
    ensures
        v matches JsonView::Array(a) ==> (capped(v, limit) matches JsonView::Array(b) && b.len() == a.len() && (0 <= i
            < a.len() ==> b[i] == capped(a[i], limit))),
        v matches JsonView::Object(a) ==> (capped(v, limit) matches JsonView::Object(b) && b.len() == a.len() && (0 <= i
            < a.len() ==> b[i].0 == a[i].0 && b[i].1 == capped(a[i].1, limit))),
        v matches JsonView::Str(s) ==> capped(v, limit) == JsonView::Str(capped_text(s, limit)),
        v is Null || v is Bool || v is Num ==> capped(v, limit) == v,
{
}

/// Every call that failed counts, and no other.
pub proof fn law_failures_are_counted(results: Seq<ToolResultView>)
    ensures
        failed_calls(results) == results.filter(|t: ToolResultView| !t.ok).len(),
        failed_calls(results) <= results.len(),
    decreases results.len(),
{
    reveal(Seq::filter);
    if results.len() > 0 {
        law_failures_are_counted(results.drop_last());
    }
}

/// The row of a call says its name, its arguments with long texts cut, and how it went or
/// why it did not.
pub proof fn law_rows_say_the_call(t: ToolResultView, r: RejectedView)
    ensures
        says(result_row(t), "name"@, JsonView::Str(t.name)),
        says(result_row(t), "args"@, capped(t.args, 500)),
        says(result_row(t), "ok"@, JsonView::Bool(t.ok)),
        says(result_row(t), "output_preview"@, JsonView::Str(t.output_preview)),
        says(rejected_row(r), "name"@, JsonView::Str(r.name)),
        says(rejected_row(r), "args"@, capped(r.args, 500)),
        says(rejected_row(r), "reason"@, JsonView::Str(reject_word(r.reason))),
{
    let e = result_row(t)->Object_0;
    assert(e[0].0 == "args"@ && e[1].0 == "name"@ && e[2].0 == "ok"@ && e[3].0 == "output_preview"@);
    let e = rejected_row(r)->Object_0;
    assert(e[0].0 == "args"@ && e[1].0 == "name"@ && e[2].0 == "reason"@);
}

/// The counts of a phase: tokens kind by kind; calls by whether they were carried out and
/// went well. Those that went well and those that failed are those carried out.
pub proof fn law_counts_are_said(u: TokenUsage, executed: nat, rejected: nat, errors: nat)
    requires
        u.input <= i64::MAX && u.output <= i64::MAX && u.reasoning <= i64::MAX,
        u.cache_read <= i64::MAX && u.cache_write <= i64::MAX,
        errors <= executed <= i64::MAX,
        rejected <= i64::MAX,
    ensures
        says(usage_table(u), "input"@, whole(u.input as int)),
        says(usage_table(u), "output"@, whole(u.output as int)),
        says(usage_table(u), "reasoning"@, whole(u.reasoning as int)),
        says(usage_table(u), "cache_read"@, whole(u.cache_read as int)),
        says(usage_table(u), "cache_write"@, whole(u.cache_write as int)),
        says(counts_table(executed, rejected, errors), "executed"@, whole(executed as int)),
        says(counts_table(executed, rejected, errors), "rejected"@, whole(rejected as int)),
        says(counts_table(executed, rejected, errors), "errors"@, whole(errors as int)),
        says(counts_table(executed, rejected, errors), "ok"@, whole(executed - errors)),
{
    let e = usage_table(u)->Object_0;
    assert(e[0].0 == "cache_read"@ && e[1].0 == "cache_write"@ && e[2].0 == "input"@ && e[3].0 == "output"@);
    assert(e[4].0 == "reasoning"@);
    let e = counts_table(executed, rejected, errors)->Object_0;
    assert(e[0].0 == "errors"@ && e[1].0 == "executed"@ && e[2].0 == "ok"@ && e[3].0 == "rejected"@);
}

/// The record of a phase says which phase it is, how it ended and what it came to, with a
/// row for each call, in order.
pub proof fn law_phase_is_recorded(info: PhaseInfo, r: RunResult, duration: NumberView, created_at: Seq<char>, i: int)
    ensures
        ({
            let v = phase_record(info, r, duration, created_at);
            &&& says(v, "run_id"@, JsonView::Str(info.run_id@))
            &&& says(v, "loop_index"@, whole(info.loop_index as int))
            &&& says(v, "phase"@, JsonView::Str(info.phase@))
            &&& says(v, "model"@, JsonView::Str(info.model@))
            &&& says(v, "task_file"@, JsonView::Str(info.task_file@))
            &&& says(v, "workdir"@, JsonView::Str(info.workdir@))
            &&& says(v, "created_at"@, JsonView::Str(created_at))
            &&& says(v, "duration_s"@, JsonView::Num(NumberView::Float(nearest_fraction(duration))))
            &&& says(v, "stop_reason"@, JsonView::Str(r.stop_reason@))
            &&& says(v, "iterations"@, whole(r.iterations as int))
            &&& says(v, "final_text_present"@, JsonView::Bool(r.final_text is Some))
            &&& says(v, "usage"@, usage_table(r.usage))
            &&& says(
                v,
                "tool_calls"@,
                counts_table(
                    r.tool_results@.len(),
                    r.rejected_calls@.len(),
                    failed_calls(results_view(r.tool_results@)),
                ),
            )
        }),
        exists|rows: Seq<JsonView>|
            {
                &&& #[trigger] says(phase_record(info, r, duration, created_at), "tools"@, JsonView::Array(rows))
                &&& rows.len() == r.tool_results@.len()
                &&& 0 <= i < rows.len() ==> rows[i] == result_row(r.tool_results@[i]@)
            },
        exists|rows: Seq<JsonView>|
            {
                &&& #[trigger] says(phase_record(info, r, duration, created_at), "rejected_calls"@, JsonView::Array(rows))
                &&& rows.len() == r.rejected_calls@.len()
                &&& 0 <= i < rows.len() ==> rows[i] == rejected_row(r.rejected_calls@[i]@)
            },
{
    let v = phase_record(info, r, duration, created_at);
    let e = v->Object_0;
    let results = results_view(r.tool_results@);
    let rejected = rejected_view(r.rejected_calls@);
    assert(e[0].0 == "created_at"@ && e[1].0 == "duration_s"@ && e[2].0 == "final_text_present"@);
    assert(e[3].0 == "iterations"@ && e[4].0 == "loop_index"@ && e[5].0 == "model"@ && e[6].0 == "phase"@);
    assert(e[7].0 == "rejected_calls"@ && e[8].0 == "run_id"@ && e[9].0 == "stop_reason"@);
    assert(e[10].0 == "task_file"@ && e[11].0 == "tool_calls"@ && e[12].0 == "tools"@);
    assert(e[13].0 == "usage"@ && e[14].0 == "workdir"@);
    let a = results.map_values(|t: ToolResultView| result_row(t));
    let b = rejected.map_values(|c: RejectedView| rejected_row(c));
    assert(says(v, "tools"@, JsonView::Array(a)));
    assert(says(v, "rejected_calls"@, JsonView::Array(b)));
}

/// The file of a phase is named by its loop and its phase: files of different loops, or
/// of different phases of one loop, have different names.
pub proof fn law_phase_files_differ(i: nat, j: nat, a: Seq<char>, b: Seq<char>)
    requires
        i < 1000,
        j < 1000,
        phase_file_of(i, a) == phase_file_of(j, b),
    ensures
        i == j,
        a == b,
{
    let p = zero_padded(decimal(i), 3);
    let q = zero_padded(decimal(j), 3);
    lemma_three_digits(i);
    lemma_three_digits(j);
    law_filling_keeps_the_value(decimal(i), 3);
    law_filling_keeps_the_value(decimal(j), 3);
    lemma_decimal(i);
    lemma_decimal(j);
    reveal_strlit("loop_");
    reveal_strlit("_");
    reveal_strlit(".toml");
    let f = phase_file_of(i, a);
    let g = phase_file_of(j, b);
    assert(p.len() == 3 && q.len() == 3);
    assert(f.subrange(5, 8) =~= p);
    assert(g.subrange(5, 8) =~= q);
    assert(f.len() == 14 + a.len() && g.len() == 14 + b.len());
    assert(f.subrange(9, 9 + a.len() as int) =~= a);
    assert(g.subrange(9, 9 + b.len() as int) =~= b);
}

/// A number below a thousand has no more than three digits.
proof fn lemma_three_digits(n: nat)
    requires
        n < 1000,
    ensures
        decimal(n).len() <= 3,
{
    reveal_with_fuel(decimal, 4);
}

/// The file name of each path is listed, where it has one.
pub proof fn law_each_file_is_named(paths: Seq<Seq<char>>)
    ensures
        file_names_of(paths) == paths.filter_map(|p: Seq<char>| file_name_of(p)),
    decreases paths.len(),
{
    if paths.len() > 0 {
        law_each_file_is_named(paths.drop_last());
    }
}

/// The list of the phases says the run, the time and the files, by name and in order.
pub proof fn law_manifest_lists_the_phases(run: JsonView, phase_files: Seq<Seq<char>>, updated_at: Seq<char>, i: int)
    ensures
        says(manifest_record(run, phase_files, updated_at), "run"@, run),
        says(manifest_record(run, phase_files, updated_at), "updated_at"@, JsonView::Str(updated_at)),
        exists|rows: Seq<JsonView>|
            {
                &&& #[trigger] says(manifest_record(run, phase_files, updated_at), "phase_files"@, JsonView::Array(rows))
                &&& rows.len() == sorted_of(file_names_of(phase_files)).len()
                &&& 0 <= i < rows.len() ==> rows[i] == JsonView::Str(sorted_of(file_names_of(phase_files))[i])
            },
{
    let v = manifest_record(run, phase_files, updated_at);
    let e = v->Object_0;
    assert(e[0].0 == "phase_files"@ && e[1].0 == "run"@ && e[2].0 == "updated_at"@);
    let a = sorted_of(file_names_of(phase_files)).map_values(|s: Seq<char>| JsonView::Str(s));
    assert(says(v, "phase_files"@, JsonView::Array(a)));
}

} // verus!
