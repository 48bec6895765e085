//! What a loop has done, as the harness saw it.
use vstd::prelude::*;

use crate::agent::{reject_word, rejected_view, results_view, RejectedCall, RejectedView, RunResult, ToolResult, ToolResultView};
use crate::json::{Json, JsonView};
use crate::summary::{first_line, first_line_of};
use crate::text::{clip, clip_of, copy_texts, lemma_texts_push, replace, replace_of, same, texts, trim, trim_of};

verus! {

/// What a loop has done.
pub struct LoopSummary {
    pub loop_index: u32,
    pub files_written: Vec<String>,
    pub files_edited: Vec<String>,
    pub files_read: Vec<String>,
    pub commands_run: Vec<String>,
    pub errors: Vec<String>,
    pub rejected: Vec<String>,
    pub total_input_tokens: u64,
    pub total_output_tokens: u64,
    pub total_cache_creation_tokens: u64,
    pub total_cache_read_tokens: u64,
}

/// What a summary says.
pub struct SummaryView {
    pub loop_index: u32,
    pub files_written: Seq<Seq<char>>,
    pub files_edited: Seq<Seq<char>>,
    pub files_read: Seq<Seq<char>>,
    pub commands_run: Seq<Seq<char>>,
    pub errors: Seq<Seq<char>>,
    pub rejected: Seq<Seq<char>>,
    pub total_input_tokens: u64,
    pub total_output_tokens: u64,
    pub total_cache_creation_tokens: u64,
    pub total_cache_read_tokens: u64,
}

impl LoopSummary {
    /// What the summary says.
    pub open spec fn view(&self) -> SummaryView {
        SummaryView {
            loop_index: self.loop_index,
            files_written: texts(self.files_written@),
            files_edited: texts(self.files_edited@),
            files_read: texts(self.files_read@),
            commands_run: texts(self.commands_run@),
            errors: texts(self.errors@),
            rejected: texts(self.rejected@),
            total_input_tokens: self.total_input_tokens,
            total_output_tokens: self.total_output_tokens,
            total_cache_creation_tokens: self.total_cache_creation_tokens,
            total_cache_read_tokens: self.total_cache_read_tokens,
        }
    }
}

/// What a list of summaries says.
pub open spec fn summaries_view(v: Seq<LoopSummary>) -> Seq<SummaryView> {
    v.map_values(|s: LoopSummary| s@)
}

/// What a loop has done that has done nothing.
pub open spec fn blank_summary(loop_index: u32) -> SummaryView {
    SummaryView {
        loop_index,
        files_written: Seq::empty(),
        files_edited: Seq::empty(),
        files_read: Seq::empty(),
        commands_run: Seq::empty(),
        errors: Seq::empty(),
        rejected: Seq::empty(),
        total_input_tokens: 0,
        total_output_tokens: 0,
        total_cache_creation_tokens: 0,
        total_cache_read_tokens: 0,
    }
}

/// What a call was about: the command, or the path.
pub open spec fn action_of(tool: Seq<char>, args: JsonView) -> Seq<char> {
    if tool == "bash"@ {
        clip_of(trim_of(replace_of(args.text_at("command"@), "\n"@, " "@)), 80)
    } else if tool == "read"@ || tool == "write"@ || tool == "edit"@ {
        args.text_at("path"@)
    } else {
        Seq::empty()
    }
}

/// What is told of a call that failed.
pub open spec fn error_line(tool: Seq<char>, action: Seq<char>, preview: Seq<char>) -> Seq<char> {
    tool + "("@ + action + "): "@ + (if preview.len() == 0 {
        "unknown error"@
    } else {
        clip_of(preview, 80)
    })
}

/// What is told of a command that was run.
pub open spec fn command_line(action: Seq<char>, preview: Seq<char>) -> Seq<char> {
    action + "  →  "@ + clip_of(first_line_of(preview), 60)
}

/// What is told of a call that was not carried out.
pub open spec fn rejected_line(c: RejectedView) -> Seq<char> {
    c.name + "("@ + action_of(c.name, c.args) + "): "@ + reject_word(c.reason)
}

/// A summary with a call that was carried out.
pub open spec fn with_result(s: SummaryView, t: ToolResultView) -> SummaryView {
    let action = action_of(t.name, t.args);
    let preview = trim_of(t.output_preview);
    if !t.ok {
        SummaryView { errors: s.errors.push(error_line(t.name, action, preview)), ..s }
    } else if t.name == "write"@ {
        SummaryView { files_written: s.files_written.push(action), ..s }
    } else if t.name == "edit"@ {
        SummaryView { files_edited: s.files_edited.push(action), ..s }
    } else if t.name == "read"@ {
        SummaryView { files_read: s.files_read.push(action), ..s }
    } else if t.name == "bash"@ {
        SummaryView { commands_run: s.commands_run.push(command_line(action, preview)), ..s }
    } else {
        s
    }
}

/// A summary with the calls that were carried out.
pub open spec fn with_results(s: SummaryView, results: Seq<ToolResultView>) -> SummaryView
    decreases results.len(),
{
    if results.len() == 0 {
        s
    } else {
        with_result(with_results(s, results.drop_last()), results.last())
    }
}

/// What a loop has done, by what came of its run.
pub open spec fn summary_of_run(loop_index: u32, r: RunResult) -> SummaryView {
    SummaryView {
        rejected: rejected_view(r.rejected_calls@).map_values(|c: RejectedView| rejected_line(c)),
        total_input_tokens: r.usage.input,
        total_output_tokens: r.usage.output,
        total_cache_creation_tokens: r.usage.cache_write,
        total_cache_read_tokens: r.usage.cache_read,
        ..with_results(blank_summary(loop_index), results_view(r.tool_results@))
    }
}

/// What a call was about: the command, or the path.
fn action_preview(tool: &str, args: &Json) -> (r: String)
    ensures
        r@ == action_of(tool@, args@),
{
    if same(tool, "bash") {
        let command = replace(args.text_at("command").as_str(), "\n", " ");
        clip(trim(command.as_str()), 80)
    } else if same(tool, "read") || same(tool, "write") || same(tool, "edit") {
        args.text_at("path")
    } else {
        String::new()
    }
}

/// Adds a text to a list.
pub(crate) fn push_text(out: &mut Vec<String>, line: String)
    ensures
        texts(final(out)@) == texts(old(out)@).push(line@),
{
    proof { lemma_texts_push(out@, line); }
    out.push(line);
}

impl LoopSummary {
    /// What a loop has done that has done nothing.
    pub fn new(loop_index: u32) -> (r: LoopSummary)
        ensures
            r@ == blank_summary(loop_index),
    {
        let r = LoopSummary {
            loop_index,
            files_written: Vec::new(),
            files_edited: Vec::new(),
            files_read: Vec::new(),
            commands_run: Vec::new(),
            errors: Vec::new(),
            rejected: Vec::new(),
            total_input_tokens: 0,
            total_output_tokens: 0,
            total_cache_creation_tokens: 0,
            total_cache_read_tokens: 0,
        };
        proof {
            assert(r@.files_written =~= Seq::empty());
            assert(r@.files_edited =~= Seq::empty());
            assert(r@.files_read =~= Seq::empty());
            assert(r@.commands_run =~= Seq::empty());
            assert(r@.errors =~= Seq::empty());
            assert(r@.rejected =~= Seq::empty());
        }
        r
    }

    /// A copy of the summary.
    pub fn copy(&self) -> (r: LoopSummary)
        ensures
            r@ == self@,
    {
        LoopSummary {
            loop_index: self.loop_index,
            files_written: copy_texts(&self.files_written),
            files_edited: copy_texts(&self.files_edited),
            files_read: copy_texts(&self.files_read),
            commands_run: copy_texts(&self.commands_run),
            errors: copy_texts(&self.errors),
            rejected: copy_texts(&self.rejected),
            total_input_tokens: self.total_input_tokens,
            total_output_tokens: self.total_output_tokens,
            total_cache_creation_tokens: self.total_cache_creation_tokens,
            total_cache_read_tokens: self.total_cache_read_tokens,
        }
    }

    /// Adds what is told of a call that failed.
    fn record_tool_error(&mut self, tool: &str, action: &str, preview: &str)
        ensures
            final(self)@ == (SummaryView {
                errors: old(self)@.errors.push(error_line(tool@, action@, preview@)),
                ..old(self)@
            }),
    {
        let mut line = String::from_str(tool);
        line.append("(");
        line.append(action);
        line.append("): ");
        if preview.is_empty() {
            line.append("unknown error");
        } else {
            line.append(clip(preview, 80).as_str());
        }
        push_text(&mut self.errors, line);
    }

    /// Adds what is told of a command that was run.
    fn record_bash_command(&mut self, action: &str, preview: &str)
        ensures
            final(self)@ == (SummaryView {
                commands_run: old(self)@.commands_run.push(command_line(action@, preview@)),
                ..old(self)@
            }),
    {
        let mut line = String::from_str(action);
        line.append("  →  ");
        line.append(clip(first_line(preview).as_str(), 60).as_str());
        push_text(&mut self.commands_run, line);
    }

    /// Adds a call that was carried out.
    fn record_result(&mut self, t: &ToolResult)
        ensures
            final(self)@ == with_result(old(self)@, t@),
    {
        let name = t.name.as_str();
        let action = action_preview(name, &t.args);
        let preview = trim(t.output_preview.as_str());
        if !t.ok {
            self.record_tool_error(name, action.as_str(), preview);
        } else if same(name, "write") {
            push_text(&mut self.files_written, action);
        } else if same(name, "edit") {
            push_text(&mut self.files_edited, action);
        } else if same(name, "read") {
            push_text(&mut self.files_read, action);
        } else if same(name, "bash") {
            self.record_bash_command(action.as_str(), preview);
        }
    }
}

/// What is told of the calls that were not carried out.
fn rejected_lines(rejected: &Vec<RejectedCall>) -> (r: Vec<String>)
    ensures
        texts(r@) == rejected_view(rejected@).map_values(|c: RejectedView| rejected_line(c)),
{
    let mut out: Vec<String> = Vec::new();
    for i in 0..rejected.len()
        invariant
            out@.len() == i,
            forall|k: int| 0 <= k < i ==> (#[trigger] out@[k])@ == rejected_line(rejected@[k]@),
    {
        let c = &rejected[i];
        let mut line = c.name.clone();
        line.append("(");
        line.append(action_preview(c.name.as_str(), &c.args).as_str());
        line.append("): ");
        line.append(c.reason.as_str());
        out.push(line);
    }
    assert(texts(out@) =~= rejected_view(rejected@).map_values(|c: RejectedView| rejected_line(c)));
    out
}

/// What a loop has done, by what came of its run.
pub fn loop_summary_from_result(loop_index: u32, result: &RunResult) -> (r: LoopSummary)
    ensures
        r@ == summary_of_run(loop_index, *result),
{
    let mut summary = LoopSummary::new(loop_index);
    let ghost all = results_view(result.tool_results@);
    assert(all.take(0) =~= Seq::empty());
    for i in 0..result.tool_results.len()
        invariant
            all == results_view(result.tool_results@),
            summary@ == with_results(blank_summary(loop_index), all.take(i as int)),
    {
        proof {
            assert(all.take(i + 1).drop_last() =~= all.take(i as int));
            assert(all.take(i + 1).last() == result.tool_results@[i as int]@);
        }
        summary.record_result(&result.tool_results[i]);
    }
    assert(all.take(result.tool_results@.len() as int) =~= all);
    summary.rejected = rejected_lines(&result.rejected_calls);
    summary.total_input_tokens = result.usage.input;
    summary.total_output_tokens = result.usage.output;
    summary.total_cache_creation_tokens = result.usage.cache_write;
    summary.total_cache_read_tokens = result.usage.cache_read;
    summary
}

// ---------------------------------------------------------------------------
// Laws
// ---------------------------------------------------------------------------

/// Each call that was carried out is told of at most once, and every failed one is
/// told of as an error.
pub proof fn law_summary_counts(s: SummaryView, results: Seq<ToolResultView>)
    ensures
        ({
            let t = with_results(s, results);
            &&& t.errors.len() == s.errors.len() + crate::telemetry::failed_calls(results)
            &&& t.files_written.len() + t.files_edited.len() + t.files_read.len() + t.commands_run.len() + t.errors.len()
                <= s.files_written.len() + s.files_edited.len() + s.files_read.len() + s.commands_run.len()
                + s.errors.len() + results.len()
            &&& t.rejected == s.rejected
        }),
    decreases results.len(),
{
    if results.len() > 0 {
        law_summary_counts(s, results.drop_last());
    }
}

/// The tools have different names.
proof fn lemma_tools_differ()
    ensures
        "write"@ != "edit"@ && "write"@ != "read"@ && "write"@ != "bash"@,
        "edit"@ != "read"@ && "edit"@ != "bash"@ && "read"@ != "bash"@,
{
    reveal_strlit("write");
    reveal_strlit("edit");
    reveal_strlit("read");
    reveal_strlit("bash");
    assert("write"@[0] == 'w' && "edit"@[0] == 'e' && "read"@[0] == 'r' && "bash"@[0] == 'b');
}

/// Of each call that went well the file or the command is told, and of each that failed
/// the error, every one in order, however many there are.
pub proof fn law_every_call_is_told(s: SummaryView, results: Seq<ToolResultView>)
    ensures
        with_results(s, results).files_written == s.files_written + results.filter_map(
            |t: ToolResultView|
                if t.ok && t.name == "write"@ {
                    Some(t.args.text_at("path"@))
                } else {
                    None
                },
        ),
        with_results(s, results).files_edited == s.files_edited + results.filter_map(
            |t: ToolResultView|
                if t.ok && t.name == "edit"@ {
                    Some(t.args.text_at("path"@))
                } else {
                    None
                },
        ),
        with_results(s, results).files_read == s.files_read + results.filter_map(
            |t: ToolResultView|
                if t.ok && t.name == "read"@ {
                    Some(t.args.text_at("path"@))
                } else {
                    None
                },
        ),
        with_results(s, results).commands_run == s.commands_run + results.filter_map(
            |t: ToolResultView|
                if t.ok && t.name == "bash"@ {
                    Some(
                        clip_of(trim_of(replace_of(t.args.text_at("command"@), "\n"@, " "@)), 80) + "  →  "@ + clip_of(
                            first_line_of(trim_of(t.output_preview)),
                            60,
                        ),
                    )
                } else {
                    None
                },
        ),
        with_results(s, results).errors == s.errors + results.filter_map(
            |t: ToolResultView|
                if !t.ok {
                    Some(error_line(t.name, action_of(t.name, t.args), trim_of(t.output_preview)))
                } else {
                    None
                },
        ),
        with_results(s, results).loop_index == s.loop_index,
        with_results(s, results).rejected == s.rejected,
    decreases results.len(),
{
    if results.len() == 0 {
        assert(s.files_written + Seq::empty() =~= s.files_written);
        assert(s.files_edited + Seq::empty() =~= s.files_edited);
        assert(s.files_read + Seq::empty() =~= s.files_read);
        assert(s.commands_run + Seq::empty() =~= s.commands_run);
        assert(s.errors + Seq::empty() =~= s.errors);
    } else {
        lemma_tools_differ();
        law_every_call_is_told(s, results.drop_last());
    }
}

/// What a call was about is the command, on one line of no more than eighty characters,
/// or the path of the file.
pub proof fn law_action_is_command_or_path(tool: Seq<char>, args: JsonView)
    ensures
        tool == "read"@ || tool == "write"@ || tool == "edit"@ ==> action_of(tool, args) == args.text_at("path"@),
        tool == "bash"@ ==> ({
            let command = trim_of(replace_of(args.text_at("command"@), "\n"@, " "@));
            &&& command.len() <= 80 ==> action_of(tool, args) == command
            &&& command.len() > 80 ==> action_of(tool, args) == command.take(80)
        }),
        tool != "read"@ && tool != "write"@ && tool != "edit"@ && tool != "bash"@ ==> action_of(tool, args).len() == 0,
{
    lemma_tools_differ();
}

/// An error is told with the call and the beginning of its output.
pub proof fn law_error_is_told(tool: Seq<char>, action: Seq<char>, preview: Seq<char>)
    ensures
        preview.len() == 0 ==> error_line(tool, action, preview) == tool + "("@ + action + "): "@ + "unknown error"@,
        0 < preview.len() <= 80 ==> error_line(tool, action, preview) == tool + "("@ + action + "): "@ + preview,
        preview.len() > 80 ==> error_line(tool, action, preview) == tool + "("@ + action + "): "@ + preview.take(80),
{
}

/// The summary of a run tells of all of its calls, and of what it used.
pub proof fn law_run_is_summed_up(loop_index: u32, r: RunResult, i: int)
    ensures
        ({
            let s = summary_of_run(loop_index, r);
            let told = with_results(blank_summary(loop_index), results_view(r.tool_results@));
            &&& s.loop_index == loop_index
            &&& s.files_written == told.files_written && s.files_edited == told.files_edited
            &&& s.files_read == told.files_read && s.commands_run == told.commands_run && s.errors == told.errors
            &&& s.rejected.len() == r.rejected_calls@.len()
            &&& 0 <= i < s.rejected.len() ==> s.rejected[i] == ({
                let c = r.rejected_calls@[i]@;
                c.name + "("@ + action_of(c.name, c.args) + "): "@ + reject_word(c.reason)
            })
            &&& s.total_input_tokens == r.usage.input && s.total_output_tokens == r.usage.output
            &&& s.total_cache_creation_tokens == r.usage.cache_write && s.total_cache_read_tokens == r.usage.cache_read
        }),
{
    law_every_call_is_told(blank_summary(loop_index), results_view(r.tool_results@));
}

/// A loop that has done nothing tells of nothing.
pub proof fn law_blank_summary_is_empty(loop_index: u32)
    ensures
        ({
            let s = blank_summary(loop_index);
            &&& s.loop_index == loop_index
            &&& s.files_written.len() == 0 && s.files_edited.len() == 0 && s.files_read.len() == 0
            &&& s.commands_run.len() == 0 && s.errors.len() == 0 && s.rejected.len() == 0
            &&& s.total_input_tokens == 0 && s.total_output_tokens == 0
            &&& s.total_cache_creation_tokens == 0 && s.total_cache_read_tokens == 0
        }),
{
}

} // verus!
