//! What a run keeps track of.
use vstd::prelude::*;

use crate::json::{Json, JsonView};
use crate::json_codec::{compact, compact_text};
use crate::ordered::{comes_before, lookup, precedes, put};
use crate::summary::{args_preview_of, ellipsis_of, format_args, is_error, is_error_output, summarize_tool_output, summary_of, truncate_with_ellipsis};
use crate::text::{begins, clip, clip_of, last_n_of, lemma_texts_push, same, texts, trim_start_of};
use crate::usage::{usage_of, TokenUsage};
use super::context::{recent_view, RecentEntry, RecentView};
use super::{rejected_view, results_view, IterationTelemetry, RejectReason, RejectedCall, RejectedView, ToolResult, ToolResultView};

verus! {

// ---------------------------------------------------------------------------
// How often each call was made
// ---------------------------------------------------------------------------

/// How often each call was made. The calls are listed by key, in order.
pub struct CallCounts {
    pub entries: Vec<(String, u64)>,
}

/// What a list of counts says.
pub open spec fn counts_view(v: Seq<(String, u64)>) -> Seq<(Seq<char>, int)> {
    v.map_values(|e: (String, u64)| (e.0@, e.1 as int))
}

/// The count of a key.
pub open spec fn count_in(counts: Seq<(Seq<char>, int)>, key: Seq<char>) -> int {
    match lookup(counts, key) {
        Some(n) => n,
        None => 0,
    }
}

/// No count is above `most`.
pub open spec fn counts_upto(counts: Seq<(Seq<char>, int)>, most: int) -> bool {
    forall|i: int| 0 <= i < counts.len() ==> (#[trigger] counts[i]).1 <= most
}

impl CallCounts {
    /// The counts.
    pub open spec fn view(&self) -> Seq<(Seq<char>, int)> {
        counts_view(self.entries@)
    }

    /// No counts.
    pub fn new() -> (r: CallCounts)
        ensures
            r@ == Seq::<(Seq<char>, int)>::empty(),
    {
        let r = CallCounts { entries: Vec::new() };
        assert(r@ =~= Seq::empty());
        r
    }

    /// The count of a key.
    pub fn get(&self, key: &str) -> (r: u64)
        ensures
            r == count_in(self@, key@),
    {
        let ghost e = self@;
        assert(e.skip(0) =~= e);
        for i in 0..self.entries.len()
            invariant
                e == self@,
                lookup(e, key@) == lookup(e.skip(i as int), key@),
        {
            assert(e.skip(i as int)[0] == (self.entries@[i as int].0@, self.entries@[i as int].1 as int));
            if same(self.entries[i].0.as_str(), key) {
                return self.entries[i].1;
            }
            assert(e.skip(i as int).skip(1) =~= e.skip(i + 1));
        }
        assert(e.skip(self.entries@.len() as int) =~= Seq::empty());
        0
    }

    /// Counts a key once more.
    pub fn bump(&mut self, key: &str)
        requires
            count_in(old(self)@, key@) < u64::MAX,
        ensures
            final(self)@ == put(old(self)@, key@, count_in(old(self)@, key@) + 1),
    {
        let value: u64 = self.get(key) + 1;
        let ghost e = self@;
        let ghost v = value as int;
        let n = self.entries.len();
        let mut i: usize = 0;
        assert(e.skip(0) =~= e);
        assert(e.take(0) + put(e, key@, v) =~= put(e, key@, v));
        while i < n && !same(self.entries[i].0.as_str(), key) && !comes_before(key, self.entries[i].0.as_str())
            invariant
                i <= n == self.entries@.len(),
                e == self@,
                e.take(i as int) + put(e.skip(i as int), key@, v) == put(e, key@, v),
            decreases n - i,
        {
            proof {
                let rest = e.skip(i as int);
                assert(rest[0] == (self.entries@[i as int].0@, self.entries@[i as int].1 as int));
                assert(rest.skip(1) =~= e.skip(i + 1));
                assert(e.take(i + 1) + put(e.skip(i + 1), key@, v) =~= e.take(i as int) + (seq![rest[0]] + put(
                    rest.skip(1),
                    key@,
                    v,
                )));
            }
            i = i + 1;
        }
        let ghost rest = e.skip(i as int);
        if i < n {
            assert(rest[0] == (self.entries@[i as int].0@, self.entries@[i as int].1 as int));
        }
        let new = (String::from_str(key), value);
        let ghost newv = (new.0@, v);
        if i < n && same(self.entries[i].0.as_str(), key) {
            self.entries.set(i, new);
            proof {
                assert(self@ =~= e.update(i as int, newv));
                assert(e.update(i as int, newv) =~= e.take(i as int) + (seq![newv] + rest.skip(1)));
            }
        } else {
            self.entries.insert(i, new);
            proof {
                assert(self@ =~= e.insert(i as int, newv));
                if rest.len() == 0 {
                    assert(e.insert(i as int, newv) =~= e.take(i as int) + seq![newv]);
                } else {
                    assert(e.insert(i as int, newv) =~= e.take(i as int) + (seq![newv] + rest));
                }
            }
        }
    }
}

/// A count among others is no higher than they are.
pub proof fn lemma_count_upto(counts: Seq<(Seq<char>, int)>, key: Seq<char>, most: int)
    requires
        counts_upto(counts, most),
        0 <= most,
    ensures
        count_in(counts, key) <= most,
    decreases counts.len(),
{
    if counts.len() > 0 {
        let rest = counts.skip(1);
        assert forall|i: int| 0 <= i < rest.len() implies (#[trigger] rest[i]).1 <= most by {
            assert(rest[i] == counts[i + 1]);
        }
        lemma_count_upto(rest, key, most);
        assert(counts[0].1 <= most);
    }
}

/// A count that is put among others leaves the others as they are.
pub proof fn lemma_put_upto(counts: Seq<(Seq<char>, int)>, key: Seq<char>, n: int, most: int)
    requires
        counts_upto(counts, most),
        n <= most,
    ensures
        counts_upto(put(counts, key, n), most),
    decreases counts.len(),
{
    let after = put(counts, key, n);
    if counts.len() == 0 || counts[0].0 == key || precedes(key, counts[0].0) {
        assert forall|i: int| 0 <= i < after.len() implies (#[trigger] after[i]).1 <= most by {
            if i > 0 {
                if counts[0].0 == key {
                    assert(after[i] == counts[i]);
                } else {
                    assert(after[i] == counts[i - 1]);
                }
            }
        }
    } else {
        let rest = counts.skip(1);
        assert forall|i: int| 0 <= i < rest.len() implies (#[trigger] rest[i]).1 <= most by {
            assert(rest[i] == counts[i + 1]);
        }
        lemma_put_upto(rest, key, n, most);
        assert forall|i: int| 0 <= i < after.len() implies (#[trigger] after[i]).1 <= most by {
            if i > 0 {
                assert(after[i] == put(rest, key, n)[i - 1]);
            } else {
                assert(after[0] == counts[0]);
            }
        }
    }
}

// ---------------------------------------------------------------------------
// The state of a run
// ---------------------------------------------------------------------------

/// What a run keeps track of.
pub struct RunState {
    pub tool_calls_total: u64,
    pub call_counts: CallCounts,
    pub recent: Vec<RecentEntry>,
    pub recent_errors: Vec<String>,
    pub consecutive_error_iters: u32,
    pub tool_results: Vec<ToolResult>,
    pub rejected_calls: Vec<RejectedCall>,
    pub usage: TokenUsage,
    pub iteration_telemetry: Vec<IterationTelemetry>,
}

/// What the state of a run says.
pub struct StateView {
    pub tool_calls_total: int,
    pub call_counts: Seq<(Seq<char>, int)>,
    pub recent: Seq<RecentView>,
    pub recent_errors: Seq<Seq<char>>,
    pub consecutive_error_iters: int,
    pub tool_results: Seq<ToolResultView>,
    pub rejected_calls: Seq<RejectedView>,
    pub usage: TokenUsage,
    pub iteration_telemetry: Seq<IterationTelemetry>,
}

/// How many recent calls are kept.
pub const MAX_RECENT: usize = 12;

/// How many recent errors are kept.
pub const MAX_RECENT_ERRORS: usize = 5;

/// By which a call is known: its tool and its arguments.
pub open spec fn call_key(name: Seq<char>, args: JsonView) -> Seq<char> {
    name + ":"@ + compact(args)
}

/// The state at the beginning of a run.
pub open spec fn fresh_state() -> StateView {
    StateView {
        tool_calls_total: 0,
        call_counts: Seq::empty(),
        recent: Seq::empty(),
        recent_errors: Seq::empty(),
        consecutive_error_iters: 0,
        tool_results: Seq::empty(),
        rejected_calls: Seq::empty(),
        usage: usage_of(None),
        iteration_telemetry: Seq::empty(),
    }
}

impl StateView {
    /// With a call counted once more.
    pub open spec fn counted(self, key: Seq<char>) -> StateView {
        StateView {
            call_counts: put(self.call_counts, key, count_in(self.call_counts, key) + 1),
            ..self
        }
    }

    /// With what came of a call among the recent calls, and among the recent errors
    /// where it is one.
    pub open spec fn recorded(self, name: Seq<char>, args: JsonView, output: Seq<char>) -> StateView {
        let summary = summary_of(name, output);
        let ok = !is_error(output);
        StateView {
            recent: last_n_of(
                self.recent.push(
                    RecentView {
                        tool: name,
                        args_preview: args_preview_of(name, args),
                        summary: clip_of(summary, 2000),
                        ok,
                    },
                ),
                MAX_RECENT as nat,
            ),
            recent_errors: if ok {
                self.recent_errors
            } else {
                last_n_of(
                    self.recent_errors.push(name + ": "@ + ellipsis_of(summary, 400)),
                    MAX_RECENT_ERRORS as nat,
                )
            },
            ..self
        }
    }

    /// With a call that was not carried out.
    pub open spec fn rejected(self, name: Seq<char>, args: JsonView, reason: RejectReason) -> StateView {
        StateView { rejected_calls: self.rejected_calls.push(RejectedView { name, args, reason }), ..self }
    }

    /// With a call that was carried out.
    pub open spec fn executed(self, name: Seq<char>, args: JsonView, output: Seq<char>) -> StateView {
        StateView {
            tool_calls_total: self.tool_calls_total + 1,
            tool_results: self.tool_results.push(
                ToolResultView { name, args, ok: !is_error(output), output_preview: clip_of(output, 500) },
            ),
            ..self
        }
    }

    /// With all calls counted anew, since the files may have changed.
    pub open spec fn forgotten(self) -> StateView {
        StateView { call_counts: Seq::empty(), ..self }
    }
}

impl RunState {
    /// What the state says.
    pub open spec fn view(&self) -> StateView {
        StateView {
            tool_calls_total: self.tool_calls_total as int,
            call_counts: self.call_counts@,
            recent: recent_view(self.recent@),
            recent_errors: texts(self.recent_errors@),
            consecutive_error_iters: self.consecutive_error_iters as int,
            tool_results: results_view(self.tool_results@),
            rejected_calls: rejected_view(self.rejected_calls@),
            usage: self.usage,
            iteration_telemetry: self.iteration_telemetry@,
        }
    }

    /// The state at the beginning of a run.
    pub fn new() -> (r: RunState)
        ensures
            r@ == fresh_state(),
    {
        let r = RunState {
            tool_calls_total: 0,
            call_counts: CallCounts::new(),
            recent: Vec::new(),
            recent_errors: Vec::new(),
            consecutive_error_iters: 0,
            tool_results: Vec::new(),
            rejected_calls: Vec::new(),
            usage: TokenUsage::default(),
            iteration_telemetry: Vec::new(),
        };
        proof {
            assert(r@.recent =~= Seq::empty());
            assert(r@.recent_errors =~= Seq::empty());
            assert(r@.tool_results =~= Seq::empty());
            assert(r@.rejected_calls =~= Seq::empty());
            assert(r@.iteration_telemetry =~= Seq::empty());
        }
        r
    }

    /// Counts a call once more.
    pub fn count_call(&mut self, key: &str)
        requires
            count_in(old(self)@.call_counts, key@) < u64::MAX,
        ensures
            final(self)@ == old(self)@.counted(key@),
    {
        self.call_counts.bump(key);
    }

    /// Counts all calls anew.
    pub fn forget_calls(&mut self)
        ensures
            final(self)@ == old(self)@.forgotten(),
    {
        self.call_counts = CallCounts::new();
    }

    /// Keeps what came of a call among the recent calls, and among the recent errors
    /// where it is one.
    pub fn record_tool_result(&mut self, name: &str, args: &Json, output: &str)
        ensures
            final(self)@ == old(self)@.recorded(name@, args@, output@),
    {
        let summary = summarize_tool_output(name, output);
        let ok = !is_error_output(output);
        let entry = RecentEntry {
            tool: String::from_str(name),
            args_preview: format_args(name, args),
            summary: clip(summary.as_str(), 2000),
            ok,
        };
        let ghost before = self@;
        let ghost added = before.recent.push(entry@);
        self.recent.push(entry);
        assert(recent_view(self.recent@) =~= added);
        keep_recent(&mut self.recent);
        if !ok {
            let mut error = String::from_str(name);
            error.append(": ");
            error.append(truncate_with_ellipsis(summary.as_str(), 400).as_str());
            proof { lemma_texts_push(self.recent_errors@, error); }
            self.recent_errors.push(error);
            keep_errors(&mut self.recent_errors);
        }
    }

    /// Keeps a call that was not carried out.
    pub fn record_rejected_call(&mut self, name: &str, args: &Json, reason: RejectReason)
        ensures
            final(self)@ == old(self)@.rejected(name@, args@, reason),
    {
        let call = RejectedCall { name: String::from_str(name), args: args.copy(), reason };
        let ghost before = self@.rejected_calls;
        let ghost added = call@;
        self.rejected_calls.push(call);
        assert(rejected_view(self.rejected_calls@) =~= before.push(added));
    }

    /// Keeps a call that was carried out.
    pub fn record_execution(&mut self, name: &str, args: &Json, output: &str)
        requires
            old(self).tool_calls_total < u64::MAX,
        ensures
            final(self)@ == old(self)@.executed(name@, args@, output@),
    {
        let result = ToolResult {
            name: String::from_str(name),
            args: args.copy(),
            ok: !is_error_output(output),
            output_preview: clip(output, 500),
        };
        let ghost before = self@.tool_results;
        let ghost added = result@;
        self.tool_calls_total = self.tool_calls_total + 1;
        self.tool_results.push(result);
        assert(results_view(self.tool_results@) =~= before.push(added));
    }
}

/// Drops all recent calls but the last ones.
fn keep_recent(v: &mut Vec<RecentEntry>)
    ensures
        recent_view(final(v)@) == last_n_of(recent_view(old(v)@), MAX_RECENT as nat),
{
    let ghost all = v@;
    assert(all.skip(0) =~= all);
    let ghost mut k: int = 0;
    while v.len() > MAX_RECENT
        invariant
            0 <= k <= all.len(),
            v@ == all.skip(k),
            k > 0 ==> v@.len() >= MAX_RECENT,
        decreases v@.len(),
    {
        v.remove(0);
        proof {
            assert(v@ =~= all.skip(k + 1));
            k = k + 1;
        }
    }
    assert(recent_view(v@) =~= last_n_of(recent_view(all), MAX_RECENT as nat));
}

/// Drops all recent errors but the last ones.
fn keep_errors(v: &mut Vec<String>)
    ensures
        texts(final(v)@) == last_n_of(texts(old(v)@), MAX_RECENT_ERRORS as nat),
{
    let ghost all = v@;
    assert(all.skip(0) =~= all);
    let ghost mut k: int = 0;
    while v.len() > MAX_RECENT_ERRORS
        invariant
            0 <= k <= all.len(),
            v@ == all.skip(k),
            k > 0 ==> v@.len() >= MAX_RECENT_ERRORS,
        decreases v@.len(),
    {
        v.remove(0);
        proof {
            assert(v@ =~= all.skip(k + 1));
            k = k + 1;
        }
    }
    assert(texts(v@) =~= last_n_of(texts(all), MAX_RECENT_ERRORS as nat));
}

/// By which a call is known: its tool and its arguments.
pub fn tool_call_key(name: &str, args: &Json) -> (r: String)
    ensures
        r@ == call_key(name@, args@),
{
    let mut out = String::from_str(name);
    out.append(":");
    out.append(compact_text(args).as_str());
    out
}

// ---------------------------------------------------------------------------
// Laws
// ---------------------------------------------------------------------------

/// However many calls are recorded, no more than the last few are kept.
pub proof fn law_recent_is_bounded(s: StateView, name: Seq<char>, args: JsonView, output: Seq<char>)
    requires
        s.recent_errors.len() <= MAX_RECENT_ERRORS,
    ensures
        s.recorded(name, args, output).recent.len() <= MAX_RECENT,
        s.recorded(name, args, output).recent_errors.len() <= MAX_RECENT_ERRORS,
{
}

/// Counting a call adds one to its count and leaves every other count as it is.
pub proof fn law_counting_is_local(s: StateView, key: Seq<char>, other: Seq<char>)
    ensures
        count_in(s.counted(key).call_counts, key) == count_in(s.call_counts, key) + 1,
        other != key ==> count_in(s.counted(key).call_counts, other) == count_in(s.call_counts, other),
{
    crate::ordered::law_put_then_lookup(s.call_counts, key, count_in(s.call_counts, key) + 1, other);
}

/// Calls of one tool whose arguments differ in the order of their entries alone are
/// known as the same call.
pub proof fn law_order_of_arguments_is_ignored(name: Seq<char>, a: JsonView, b: JsonView)
    requires
        a.normal() == b.normal(),
    ensures
        call_key(name, a) == call_key(name, b),
{
}

/// What came of a call is kept behind what came of the calls before it; the oldest
/// leaves once there are twelve. An error is kept among the errors too, of which the
/// oldest leaves once there are five.
pub proof fn law_latest_calls_are_kept(s: StateView, name: Seq<char>, args: JsonView, output: Seq<char>)
    ensures
        ({
            let t = s.recorded(name, args, output);
            let summary = summary_of(name, output);
            let failed = begins(trim_start_of(output), "Error:"@);
            let gone = s.recent.len() + 1 - t.recent.len();
            let lost = s.recent_errors.len() + 1 - t.recent_errors.len();
            &&& t.recent.len() == (if s.recent.len() < 12 { s.recent.len() + 1 } else { 12 })
            &&& t.recent.last().tool == name
            &&& t.recent.last().args_preview == args_preview_of(name, args)
            &&& t.recent.last().ok == !failed
            &&& t.recent.last().summary.len() == (if summary.len() < 2000 { summary.len() } else { 2000 })
            &&& t.recent.last().summary.is_prefix_of(summary)
            &&& forall|i: int| 0 <= i < t.recent.len() - 1 ==> #[trigger] t.recent[i] == s.recent[i + gone]
            &&& !failed ==> t.recent_errors == s.recent_errors
            &&& failed ==> t.recent_errors.len() == (if s.recent_errors.len() < 5 {
                s.recent_errors.len() + 1
            } else {
                5
            })
            &&& failed ==> t.recent_errors.last() == name + ": "@ + ellipsis_of(summary, 400)
            &&& failed ==> forall|i: int|
                0 <= i < t.recent_errors.len() - 1 ==> #[trigger] t.recent_errors[i] == s.recent_errors[i + lost]
        }),
{
    let t = s.recorded(name, args, output);
    let summary = summary_of(name, output);
    assert(t.recent.last().summary =~= summary.subrange(0, t.recent.last().summary.len() as int));
}

/// To keep what came of a call changes no count and no list but those of recent calls.
pub proof fn law_keeping_leaves_the_rest(s: StateView, name: Seq<char>, args: JsonView, output: Seq<char>)
    ensures
        s.recorded(name, args, output) == (StateView {
            recent: s.recorded(name, args, output).recent,
            recent_errors: s.recorded(name, args, output).recent_errors,
            ..s
        }),
{
}

/// A call that was carried out is listed last, with whether it did and how its output
/// begins, and counts as one more; a call that was not is listed last of its own kind.
pub proof fn law_calls_are_listed(
    s: StateView,
    name: Seq<char>,
    args: JsonView,
    output: Seq<char>,
    reason: RejectReason,
)
    ensures
        ({
            let t = s.executed(name, args, output);
            &&& t.tool_calls_total == s.tool_calls_total + 1
            &&& t.tool_results.len() == s.tool_results.len() + 1
            &&& t.tool_results.drop_last() == s.tool_results
            &&& t.tool_results.last().name == name
            &&& t.tool_results.last().args == args
            &&& t.tool_results.last().ok == !begins(trim_start_of(output), "Error:"@)
            &&& t.tool_results.last().output_preview.is_prefix_of(output)
            &&& t.tool_results.last().output_preview.len() == (if output.len() < 500 { output.len() } else { 500 })
            &&& t == (StateView { tool_calls_total: t.tool_calls_total, tool_results: t.tool_results, ..s })
        }),
        ({
            let t = s.rejected(name, args, reason);
            &&& t.rejected_calls.len() == s.rejected_calls.len() + 1
            &&& t.rejected_calls.drop_last() == s.rejected_calls
            &&& t.rejected_calls.last().name == name
            &&& t.rejected_calls.last().args == args
            &&& t.rejected_calls.last().reason == reason
            &&& t == (StateView { rejected_calls: t.rejected_calls, ..s })
        }),
{
    let t = s.executed(name, args, output);
    assert(t.tool_results.drop_last() =~= s.tool_results);
    let p = t.tool_results.last().output_preview;
    assert(p =~= output.subrange(0, p.len() as int));
    assert(s.rejected(name, args, reason).rejected_calls.drop_last() =~= s.rejected_calls);
}

/// A run begins with nothing counted and nothing listed.
pub proof fn law_fresh_state_is_empty(key: Seq<char>)
    ensures
        fresh_state().tool_calls_total == 0,
        count_in(fresh_state().call_counts, key) == 0,
        fresh_state().recent.len() == 0,
        fresh_state().recent_errors.len() == 0,
        fresh_state().consecutive_error_iters == 0,
        fresh_state().tool_results.len() == 0,
        fresh_state().rejected_calls.len() == 0,
        fresh_state().iteration_telemetry.len() == 0,
        fresh_state().usage.input == 0 && fresh_state().usage.output == 0 && fresh_state().usage.reasoning == 0,
        fresh_state().usage.cache_write == 0 && fresh_state().usage.cache_read == 0,
{
}

/// Counting anew sets every count to nothing and leaves the rest as it is.
pub proof fn law_forgetting_is_complete(s: StateView, key: Seq<char>)
    ensures
        count_in(s.forgotten().call_counts, key) == 0,
        s.forgotten() == (StateView { call_counts: s.forgotten().call_counts, ..s }),
        s.counted(key) == (StateView { call_counts: s.counted(key).call_counts, ..s }),
{
}

/// A call is known by its tool and by all of its arguments.
pub proof fn law_call_key_holds_both(name: Seq<char>, args: JsonView)
    ensures
        call_key(name, args).take(name.len() as int) == name,
        call_key(name, args)[name.len() as int] == ':',
        call_key(name, args).skip(name.len() as int + 1) == compact(args),
{
    reveal_strlit(":");
    let k = call_key(name, args);
    assert(k.take(name.len() as int) =~= name);
    assert(k.skip(name.len() as int + 1) =~= compact(args));
}

} // verus!
