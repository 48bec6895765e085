//! What author and review are told.
use vstd::prelude::*;

use crate::numbers::{decimal, decimal_text};
use crate::text::{first_n, first_n_of, join, join_of, same, texts};
use super::summaries::{push_text, summaries_view, LoopSummary, SummaryView};

verus! {

/// What every agent of the loop is told first.
pub const SYSTEM_PROMPT: &'static str = "You are an autonomous coding agent specializing in test-driven development and repair.

Core rules:
- NEVER fabricate command results, test output, or file contents — always call a tool.
- Determine project state by reading files and running commands; never assume or infer.
- Only access files and paths within the working directory; never target system directories.
- In bash commands, only use relative paths or paths under the working directory.

Efficiency rules (critical for speed):
- Batch ALL independent reads and globs into the first turn — fetch everything you need before acting.
- Once you have identified the changes needed, implement them immediately without further exploration.
- Do not re-read files you have already read unless they were modified since your last read.
- Prefer a single comprehensive edit over multiple small edits to the same file.
- Run tests after each meaningful code change — do not defer validation to the end.
- When all tests pass and all pending items are resolved, stop immediately — do not invent further work.

Tool guidance:
- Use glob to discover structure, read for content, bash for running commands and tests.
- Use edit for targeted changes; use write only when creating new files or doing full rewrites.
";

/// What an author is told of the task at hand, behind the name of the task file.
pub const AUTHOR_GOAL: &'static str = " (read-only — contains the full specification)

PHASE: AUTHOR

Goal: COMPLETE the task in this single session if at all possible. Implement every
remaining item you can, verify it, and only stop when the task is fully done or you
are genuinely blocked. Do NOT implement just one item and defer the rest to a later
loop — keep working until everything that can be done this session is done.

Protocol:
";

/// What an author is told of the work, behind the first step.
pub const AUTHOR_PROTOCOL: &'static str = "2. Write a short PLAN (3–7 bullets) covering everything you intend to complete now.
3. Execute the plan autonomously and to completion — do NOT ask for confirmation, and
   do NOT stop after a single change while more work remains.
4. Before each set of tool calls, write one or two sentences stating what you are about to do and why.
5. Inspect the current state of relevant files before editing them.
6. After each meaningful change, run the closest available check (tests, lint, typecheck).
   If none exists, run `python -m compileall .`. Do not defer all validation to the end.
7. Continue until every task is implemented AND the checks pass, or you hit a hard blocker.

Finish with <final_answer> that includes, in this order:
- A status line of the EXACT form `STATUS: COMPLETE` if every task is implemented and all
  checks pass, otherwise `STATUS: INCOMPLETE`.
- The PLAN you followed (final form).
- Exact output of the checks you ran (verbatim, not paraphrased).
- ONLY when STATUS is INCOMPLETE: a bulleted list of NEXT STEPS (3-5 concrete items) for
  the following loop, beginning with the exact line: NEXT STEPS:
";

/// What a review is told of the work, before the number of the loop.
pub const REVIEW_JOB: &'static str = "Your job:
1. Cross-reference the author report's claims against the verified actions above.
   File reads listed above are verified — treat the agent's claims about those
   files as trustworthy. Only flag claims about files NOT in the verified list.
   Any claim that relies on an 'Attempted but NOT executed' call did NOT actually
   happen — flag it as unverified and carry the underlying work into pending items.
2. Write your assessment to the review output file in TOML format:

   ```toml
   loop = ";

/// What a review is told of the work, behind the number of the loop.
pub const REVIEW_RULES: &'static str = "
   summary = \"One paragraph describing what actually happened.\"
   blocker = \"Main current blocker, or empty string if none.\"

   [[pending]]
   item = \"First concrete next step\"
   ```

Rules:
- If tests passed and no errors are listed above, set blocker = \"\" and leave pending empty.
- pending items must be concrete and actionable (not 'continue working').
- Limit to 5 pending items maximum.

Finish with <final_answer> confirming you wrote the review output file.
";

/// What every agent of the loop is told first.
pub fn build_system_prompt() -> (r: String)
    ensures
        r@ == SYSTEM_PROMPT@,
{
    String::from_str(SYSTEM_PROMPT)
}

// ---------------------------------------------------------------------------
// The loops so far
// ---------------------------------------------------------------------------

/// A list without what has been in it before.
pub open spec fn distinct_of(list: Seq<Seq<char>>) -> Seq<Seq<char>>
    decreases list.len(),
{
    if list.len() == 0 {
        Seq::empty()
    } else {
        let front = distinct_of(list.drop_last());
        if front.contains(list.last()) {
            front
        } else {
            front.push(list.last())
        }
    }
}

/// All files that the loops have written.
pub open spec fn all_written(loops: Seq<SummaryView>) -> Seq<Seq<char>>
    decreases loops.len(),
{
    if loops.len() == 0 {
        Seq::empty()
    } else {
        all_written(loops.drop_last()) + loops.last().files_written
    }
}

/// All files that the loops have edited.
pub open spec fn all_edited(loops: Seq<SummaryView>) -> Seq<Seq<char>>
    decreases loops.len(),
{
    if loops.len() == 0 {
        Seq::empty()
    } else {
        all_edited(loops.drop_last()) + loops.last().files_edited
    }
}

/// A line with a list, where the list is not empty.
pub open spec fn list_line(label: Seq<char>, list: Seq<Seq<char>>, sep: Seq<char>) -> Seq<Seq<char>> {
    if list.len() > 0 {
        seq![label + join_of(list, sep)]
    } else {
        Seq::empty()
    }
}

/// What is told of the last loop.
pub open spec fn last_loop_line(loops: Seq<SummaryView>) -> Seq<Seq<char>> {
    if loops.len() == 0 {
        Seq::empty()
    } else {
        let parts = list_line("ran: "@, first_n_of(loops.last().commands_run, 3), "; "@) + list_line(
            "errors: "@,
            first_n_of(loops.last().errors, 3),
            "; "@,
        );
        if parts.len() > 0 {
            seq!["Last loop — "@ + join_of(parts, " | "@) + "."@]
        } else {
            Seq::empty()
        }
    }
}

/// What is told of the next steps.
pub open spec fn pending_lines(pending: Seq<Seq<char>>) -> Seq<Seq<char>> {
    if pending.len() > 0 {
        seq!["Pending next steps:"@] + first_n_of(pending, 5).map_values(|s: Seq<char>| "  - "@ + s)
    } else {
        seq!["No pending steps recorded — determine next action from the task file."@]
    }
}

/// What is told of the loops so far.
pub open spec fn loop_context(
    loop_index: nat,
    agent_loops: nat,
    loops: Seq<SummaryView>,
    pending: Seq<Seq<char>>,
) -> Seq<char> {
    join_of(
        seq!["Loop "@ + decimal(loop_index) + " of "@ + decimal(agent_loops) + "."@] + list_line(
            "Files created across all prior loops: "@,
            distinct_of(all_written(loops)),
            ", "@,
        ) + list_line("Files edited across all prior loops: "@, distinct_of(all_edited(loops)), ", "@)
            + last_loop_line(loops) + pending_lines(pending),
        "\n"@,
    )
}

/// Adds texts to a list that are not in it yet.
fn add_distinct(out: &mut Vec<String>, more: &Vec<String>, Ghost(before): Ghost<Seq<Seq<char>>>)
    requires
        texts(old(out)@) == distinct_of(before),
    ensures
        texts(final(out)@) == distinct_of(before + texts(more@)),
{
    let ghost all = texts(more@);
    assert(before + all.take(0) =~= before);
    for i in 0..more.len()
        invariant
            all == texts(more@),
            texts(out@) == distinct_of(before + all.take(i as int)),
    {
        proof {
            let list = before + all.take(i + 1);
            assert(list.drop_last() =~= before + all.take(i as int));
            assert(list.last() == more@[i as int]@);
        }
        if !has_text(out, more[i].as_str()) {
            push_text(out, more[i].clone());
        }
    }
    assert(all.take(more@.len() as int) =~= all);
}

/// Whether a text is in a list.
fn has_text(list: &Vec<String>, s: &str) -> (r: bool)
    ensures
        r == texts(list@).contains(s@),
{
    for i in 0..list.len()
        invariant
            forall|k: int| 0 <= k < i ==> list@[k]@ != s@,
    {
        if same(list[i].as_str(), s) {
            assert(texts(list@)[i as int] == s@);
            return true;
        }
    }
    proof {
        assert forall|k: int| 0 <= k < texts(list@).len() implies texts(list@)[k] != s@ by {
            assert(texts(list@)[k] == list@[k]@);
        }
    }
    false
}

/// Adds a line with a list, where the list is not empty.
fn add_list(out: &mut Vec<String>, label: &str, list: &Vec<String>, sep: &str)
    ensures
        texts(final(out)@) == texts(old(out)@) + list_line(label@, texts(list@), sep@),
{
    let ghost start = texts(out@);
    assert(texts(list@).len() == list@.len());
    if list.len() > 0 {
        let mut line = String::from_str(label);
        line.append(join(list, sep).as_str());
        let ghost l = line@;
        push_text(out, line);
        assert(start.push(l) =~= start + seq![l]);
    } else {
        assert(start + Seq::empty() =~= start);
    }
}

/// All files that the loops have written, each once.
fn files_written(loops: &Vec<LoopSummary>) -> (r: Vec<String>)
    ensures
        texts(r@) == distinct_of(all_written(summaries_view(loops@))),
{
    let ghost all = summaries_view(loops@);
    let mut out: Vec<String> = Vec::new();
    assert(all.take(0) =~= Seq::empty());
    assert(texts(out@) =~= Seq::empty());
    for i in 0..loops.len()
        invariant
            all == summaries_view(loops@),
            texts(out@) == distinct_of(all_written(all.take(i as int))),
    {
        proof {
            assert(all.take(i + 1).drop_last() =~= all.take(i as int));
            assert(all.take(i + 1).last() == loops@[i as int]@);
        }
        add_distinct(&mut out, &loops[i].files_written, Ghost(all_written(all.take(i as int))));
    }
    assert(all.take(loops@.len() as int) =~= all);
    out
}

/// All files that the loops have edited, each once.
fn files_edited(loops: &Vec<LoopSummary>) -> (r: Vec<String>)
    ensures
        texts(r@) == distinct_of(all_edited(summaries_view(loops@))),
{
    let ghost all = summaries_view(loops@);
    let mut out: Vec<String> = Vec::new();
    assert(all.take(0) =~= Seq::empty());
    assert(texts(out@) =~= Seq::empty());
    for i in 0..loops.len()
        invariant
            all == summaries_view(loops@),
            texts(out@) == distinct_of(all_edited(all.take(i as int))),
    {
        proof {
            assert(all.take(i + 1).drop_last() =~= all.take(i as int));
            assert(all.take(i + 1).last() == loops@[i as int]@);
        }
        add_distinct(&mut out, &loops[i].files_edited, Ghost(all_edited(all.take(i as int))));
    }
    assert(all.take(loops@.len() as int) =~= all);
    out
}

/// Adds what is told of the last loop.
fn add_last_loop(out: &mut Vec<String>, loops: &Vec<LoopSummary>)
    ensures
        texts(final(out)@) == texts(old(out)@) + last_loop_line(summaries_view(loops@)),
{
    let ghost start = texts(out@);
    let ghost all = summaries_view(loops@);
    let n = loops.len();
    assert(all.len() == n);
    if n == 0 {
        assert(start + Seq::empty() =~= start);
        return;
    }
    let last = &loops[n - 1];
    assert(all.last() == last@);
    let mut parts: Vec<String> = Vec::new();
    assert(texts(parts@) =~= Seq::empty());
    add_list(&mut parts, "ran: ", &first_n(&last.commands_run, 3), "; ");
    add_list(&mut parts, "errors: ", &first_n(&last.errors, 3), "; ");
    assert(texts(parts@) =~= list_line("ran: "@, first_n_of(last@.commands_run, 3), "; "@) + list_line(
        "errors: "@,
        first_n_of(last@.errors, 3),
        "; "@,
    ));
    assert(texts(parts@).len() == parts@.len());
    if parts.len() > 0 {
        let mut line = String::from_str("Last loop — ");
        line.append(join(&parts, " | ").as_str());
        line.append(".");
        let ghost l = line@;
        push_text(out, line);
        assert(start.push(l) =~= start + seq![l]);
    } else {
        assert(start + Seq::empty() =~= start);
    }
}

/// Adds a list of lines, each behind a mark.
fn add_marked(out: &mut Vec<String>, mark: &str, list: &Vec<String>)
    ensures
        texts(final(out)@) == texts(old(out)@) + texts(list@).map_values(|s: Seq<char>| mark@ + s),
{
    let ghost start = texts(out@);
    let ghost marked = texts(list@).map_values(|s: Seq<char>| mark@ + s);
    assert(start + marked.take(0) =~= start);
    for i in 0..list.len()
        invariant
            marked == texts(list@).map_values(|s: Seq<char>| mark@ + s),
            texts(out@) == start + marked.take(i as int),
    {
        let mut line = String::from_str(mark);
        line.append(list[i].as_str());
        assert(marked[i as int] == line@);
        push_text(out, line);
        assert(start + marked.take(i + 1) =~= (start + marked.take(i as int)).push(marked[i as int]));
    }
    assert(marked.take(list@.len() as int) =~= marked);
}

/// Adds what is told of the next steps.
fn add_pending(out: &mut Vec<String>, pending: &Vec<String>)
    ensures
        texts(final(out)@) == texts(old(out)@) + pending_lines(texts(pending@)),
{
    let ghost start = texts(out@);
    assert(texts(pending@).len() == pending@.len());
    if pending.len() > 0 {
        push_text(out, String::from_str("Pending next steps:"));
        add_marked(out, "  - ", &first_n(pending, 5));
        assert(texts(out@) =~= start + pending_lines(texts(pending@)));
    } else {
        push_text(
            out,
            String::from_str("No pending steps recorded — determine next action from the task file."),
        );
        assert(texts(out@) =~= start + pending_lines(texts(pending@)));
    }
}

/// What is told of the loops so far.
pub fn format_loop_context(
    loop_index: u32,
    agent_loops: u32,
    loop_summaries: &Vec<LoopSummary>,
    pending_items: &Vec<String>,
) -> (r: String)
    ensures
        r@ == loop_context(
            loop_index as nat,
            agent_loops as nat,
            summaries_view(loop_summaries@),
            texts(pending_items@),
        ),
{
    let mut first = String::from_str("Loop ");
    first.append(decimal_text(loop_index as u64).as_str());
    first.append(" of ");
    first.append(decimal_text(agent_loops as u64).as_str());
    first.append(".");
    let ghost f = first@;
    let mut out: Vec<String> = Vec::new();
    push_text(&mut out, first);
    assert(texts(out@) =~= seq![f]);
    add_list(&mut out, "Files created across all prior loops: ", &files_written(loop_summaries), ", ");
    add_list(&mut out, "Files edited across all prior loops: ", &files_edited(loop_summaries), ", ");
    add_last_loop(&mut out, loop_summaries);
    add_pending(&mut out, pending_items);
    join(&out, "\n")
}

// ---------------------------------------------------------------------------
// The author
// ---------------------------------------------------------------------------

/// The first step of an author: the task itself in the first loop, where it is known.
pub open spec fn orient_step(loop_index: nat, task_content: Seq<char>) -> Seq<char> {
    if loop_index == 1 && task_content.len() > 0 {
        "1. The full task specification is provided below — do NOT re-read the task file.\n\n<task_specification>\n"@
            + task_content + "\n</task_specification>\n"@
    } else if loop_index == 1 {
        "1. Read the task file to orient yourself on the specification.\n"@
    } else {
        "1. The specification and all prior work are already summarised above — do NOT re-read the task file or re-glob the workspace to orient yourself.\n"@
    }
}

/// What an author is told.
pub open spec fn author_task(
    workdir: Seq<char>,
    task_rel: Seq<char>,
    task_content: Seq<char>,
    loop_index: nat,
    agent_loops: nat,
    loops: Seq<SummaryView>,
    pending: Seq<Seq<char>>,
) -> Seq<char> {
    loop_context(loop_index, agent_loops, loops, pending) + "\n\nWorking directory: "@ + workdir + "\nTask file: "@
        + task_rel + AUTHOR_GOAL@ + orient_step(loop_index, task_content) + AUTHOR_PROTOCOL@
}

/// The first step of an author.
fn orient_text(loop_index: u32, task_content: &str) -> (r: String)
    ensures
        r@ == orient_step(loop_index as nat, task_content@),
{
    if loop_index == 1 && !task_content.is_empty() {
        let mut out = String::from_str(
            "1. The full task specification is provided below — do NOT re-read the task file.\n\n<task_specification>\n",
        );
        out.append(task_content);
        out.append("\n</task_specification>\n");
        out
    } else if loop_index == 1 {
        String::from_str("1. Read the task file to orient yourself on the specification.\n")
    } else {
        String::from_str(
            "1. The specification and all prior work are already summarised above — do NOT re-read the task file or re-glob the workspace to orient yourself.\n",
        )
    }
}

/// What an author is told.
pub fn build_author_task(
    workdir: &str,
    task_rel: &str,
    task_content: &str,
    loop_index: u32,
    agent_loops: u32,
    loop_summaries: &Vec<LoopSummary>,
    pending_items: &Vec<String>,
) -> (r: String)
    ensures
        r@ == author_task(
            workdir@,
            task_rel@,
            task_content@,
            loop_index as nat,
            agent_loops as nat,
            summaries_view(loop_summaries@),
            texts(pending_items@),
        ),
{
    let mut out = format_loop_context(loop_index, agent_loops, loop_summaries, pending_items);
    out.append("\n\nWorking directory: ");
    out.append(workdir);
    out.append("\nTask file: ");
    out.append(task_rel);
    out.append(AUTHOR_GOAL);
    out.append(orient_text(loop_index, task_content).as_str());
    out.append(AUTHOR_PROTOCOL);
    out
}

// ---------------------------------------------------------------------------
// The review
// ---------------------------------------------------------------------------

/// A heading and lines below it, where there are any.
pub open spec fn listed_below(heading: Seq<char>, list: Seq<Seq<char>>) -> Seq<Seq<char>> {
    if list.len() > 0 {
        seq![heading] + list.map_values(|s: Seq<char>| "  "@ + s)
    } else {
        Seq::empty()
    }
}

/// The loop has done nothing that is told of.
pub open spec fn nothing_done(s: SummaryView) -> bool {
    s.files_read.len() == 0 && s.files_written.len() == 0 && s.files_edited.len() == 0 && s.commands_run.len() == 0
        && s.errors.len() == 0
}

/// What the loop has done, line by line.
pub open spec fn verified_lines(loop_index: nat, s: SummaryView) -> Seq<Seq<char>> {
    seq!["## Verified actions from loop "@ + decimal(loop_index) + " (harness-computed)"@] + list_line(
        "Files read: "@,
        s.files_read,
        ", "@,
    ) + list_line("Files written: "@, s.files_written, ", "@) + list_line("Files edited: "@, s.files_edited, ", "@)
        + listed_below("Commands run:"@, s.commands_run) + listed_below("Errors:"@, s.errors) + (if nothing_done(s) {
        seq!["  (no verified actions)"@]
    } else {
        Seq::empty()
    })
}

/// What a review is told of calls that were not carried out.
pub open spec fn rejected_block(s: SummaryView) -> Seq<char> {
    if s.rejected.len() > 0 {
        join_of(
            listed_below(
                "## Attempted but NOT executed (harness-rejected — no workspace effect)"@,
                s.rejected,
            ),
            "\n"@,
        ) + "\n\n"@
    } else {
        Seq::empty()
    }
}

/// What a review is told of the author's answer.
pub open spec fn report_block(loop_index: nat, answer: Seq<char>) -> Seq<char> {
    if answer.len() > 0 {
        "\n[Author agent report — loop "@ + decimal(loop_index) + "]\n\n"@ + answer + "\n\n"@
    } else {
        Seq::empty()
    }
}

/// What a review is told.
pub open spec fn review_task(
    workdir: Seq<char>,
    task_rel: Seq<char>,
    review_output_rel: Seq<char>,
    loop_index: nat,
    s: SummaryView,
    answer: Seq<char>,
) -> Seq<char> {
    "Working directory: "@ + workdir + "\nTask file: "@ + task_rel + " (read-only)\nReview output: "@ + review_output_rel
        + " (write here)\n\nPHASE: REVIEW\n\n"@ + join_of(verified_lines(loop_index, s), "\n"@) + "\n\n"@
        + rejected_block(s) + report_block(loop_index, answer) + REVIEW_JOB@ + decimal(loop_index) + REVIEW_RULES@
}

/// Adds a heading and lines below it, where there are any.
fn add_below(out: &mut Vec<String>, heading: &str, list: &Vec<String>)
    ensures
        texts(final(out)@) == texts(old(out)@) + listed_below(heading@, texts(list@)),
{
    let ghost start = texts(out@);
    assert(texts(list@).len() == list@.len());
    if list.len() > 0 {
        push_text(out, String::from_str(heading));
        add_marked(out, "  ", list);
        assert(texts(out@) =~= start + listed_below(heading@, texts(list@)));
    } else {
        assert(start + Seq::empty() =~= start);
    }
}

/// What the loop has done, line by line.
fn list_verified(loop_index: u32, s: &LoopSummary) -> (r: Vec<String>)
    ensures
        texts(r@) == verified_lines(loop_index as nat, s@),
{
    let mut first = String::from_str("## Verified actions from loop ");
    first.append(decimal_text(loop_index as u64).as_str());
    first.append(" (harness-computed)");
    let ghost f = first@;
    let mut out: Vec<String> = Vec::new();
    push_text(&mut out, first);
    assert(texts(out@) =~= seq![f]);
    add_list(&mut out, "Files read: ", &s.files_read, ", ");
    add_list(&mut out, "Files written: ", &s.files_written, ", ");
    add_list(&mut out, "Files edited: ", &s.files_edited, ", ");
    add_below(&mut out, "Commands run:", &s.commands_run);
    add_below(&mut out, "Errors:", &s.errors);
    let ghost before = texts(out@);
    if s.files_read.len() == 0 && s.files_written.len() == 0 && s.files_edited.len() == 0 && s.commands_run.len() == 0
        && s.errors.len() == 0 {
        push_text(&mut out, String::from_str("  (no verified actions)"));
        assert(nothing_done(s@));
        assert(texts(out@) =~= before + seq!["  (no verified actions)"@]);
    } else {
        assert(!nothing_done(s@));
        assert(texts(out@) =~= before + Seq::empty());
    }
    out
}

/// What a review is told of calls that were not carried out.
fn list_rejected(s: &LoopSummary) -> (r: String)
    ensures
        r@ == rejected_block(s@),
{
    assert(s@.rejected.len() == s.rejected@.len());
    if s.rejected.len() > 0 {
        let mut rows: Vec<String> = Vec::new();
        assert(texts(rows@) =~= Seq::empty());
        add_below(
            &mut rows,
            "## Attempted but NOT executed (harness-rejected — no workspace effect)",
            &s.rejected,
        );
        assert(texts(rows@) =~= listed_below(
            "## Attempted but NOT executed (harness-rejected — no workspace effect)"@,
            s@.rejected,
        ));
        let mut out = join(&rows, "\n");
        out.append("\n\n");
        out
    } else {
        String::new()
    }
}

/// What a review is told of the author's answer.
fn report_text(loop_index: u32, answer: &str) -> (r: String)
    ensures
        r@ == report_block(loop_index as nat, answer@),
{
    if answer.is_empty() {
        String::new()
    } else {
        let mut out = String::from_str("\n[Author agent report — loop ");
        out.append(decimal_text(loop_index as u64).as_str());
        out.append("]\n\n");
        out.append(answer);
        out.append("\n\n");
        out
    }
}

/// What a review is told.
pub fn build_review_task(
    workdir: &str,
    task_rel: &str,
    review_output_rel: &str,
    loop_index: u32,
    loop_summary: &LoopSummary,
    exec_answer: &str,
) -> (r: String)
    ensures
        r@ == review_task(
            workdir@,
            task_rel@,
            review_output_rel@,
            loop_index as nat,
            loop_summary@,
            exec_answer@,
        ),
{
    let mut out = String::from_str("Working directory: ");
    out.append(workdir);
    out.append("\nTask file: ");
    out.append(task_rel);
    out.append(" (read-only)\nReview output: ");
    out.append(review_output_rel);
    out.append(" (write here)\n\nPHASE: REVIEW\n\n");
    out.append(join(&list_verified(loop_index, loop_summary), "\n").as_str());
    out.append("\n\n");
    out.append(list_rejected(loop_summary).as_str());
    out.append(report_text(loop_index, exec_answer).as_str());
    out.append(REVIEW_JOB);
    out.append(decimal_text(loop_index as u64).as_str());
    out.append(REVIEW_RULES);
    out
}

// ---------------------------------------------------------------------------
// Laws
// ---------------------------------------------------------------------------

/// A list without repetitions holds what the list holds, each once.
pub proof fn law_distinct(list: Seq<Seq<char>>)
    ensures
        distinct_of(list).no_duplicates(),
        forall|x: Seq<char>| distinct_of(list).contains(x) <==> #[trigger] list.contains(x),
    decreases list.len(),
{
    if list.len() > 0 {
        let rest = list.drop_last();
        let front = distinct_of(rest);
        law_distinct(rest);
        let after = distinct_of(list);
        assert forall|x: Seq<char>| after.contains(x) <==> #[trigger] list.contains(x) by {
            if list.contains(x) {
                let i = choose|i: int| 0 <= i < list.len() && list[i] == x;
                if i < rest.len() {
                    assert(rest[i] == x);
                    assert(rest.contains(x));
                    assert(front.contains(x));
                    let k = choose|k: int| 0 <= k < front.len() && front[k] == x;
                    assert(after[k] == x);
                } else if front.contains(list.last()) {
                } else {
                    assert(after[front.len() as int] == x);
                }
            }
            if after.contains(x) {
                let k = choose|k: int| 0 <= k < after.len() && after[k] == x;
                if k < front.len() {
                    assert(front[k] == x);
                    assert(front.contains(x));
                    assert(rest.contains(x));
                    let i = choose|i: int| 0 <= i < rest.len() && rest[i] == x;
                    assert(list[i] == x);
                } else {
                    assert(list[list.len() - 1] == x);
                }
            }
        }
    }
}

/// A list without repetitions keeps the order in which things came first: more of a list
/// leaves what was kept, and adds what is new behind it.
pub proof fn law_first_of_each_is_kept(list: Seq<Seq<char>>, x: Seq<char>)
    ensures
        list.contains(x) ==> distinct_of(list.push(x)) == distinct_of(list),
        !list.contains(x) ==> distinct_of(list.push(x)) == distinct_of(list).push(x),
        distinct_of(Seq::empty()).len() == 0,
{
    law_distinct(list);
    assert(list.push(x).drop_last() =~= list);
    assert(distinct_of(list).contains(x) <==> list.contains(x));
}

/// The files of all loops count, of the first as of the last.
pub proof fn law_files_of_all_loops_count(loops: Seq<SummaryView>, file: Seq<char>)
    ensures
        all_written(loops).contains(file) <==> exists|i: int|
            0 <= i < loops.len() && (#[trigger] loops[i]).files_written.contains(file),
        all_edited(loops).contains(file) <==> exists|i: int|
            0 <= i < loops.len() && (#[trigger] loops[i]).files_edited.contains(file),
    decreases loops.len(),
{
    if loops.len() > 0 {
        let front = loops.drop_last();
        let n = loops.len() - 1;
        law_files_of_all_loops_count(front, file);
        assert(loops[n] == loops.last());
        lemma_contains_add(all_written(front), loops.last().files_written, file);
        lemma_contains_add(all_edited(front), loops.last().files_edited, file);
        if exists|i: int| 0 <= i < front.len() && (#[trigger] front[i]).files_written.contains(file) {
            let i = choose|i: int| 0 <= i < front.len() && (#[trigger] front[i]).files_written.contains(file);
            assert(loops[i] == front[i]);
        }
        if exists|i: int| 0 <= i < front.len() && (#[trigger] front[i]).files_edited.contains(file) {
            let i = choose|i: int| 0 <= i < front.len() && (#[trigger] front[i]).files_edited.contains(file);
            assert(loops[i] == front[i]);
        }
        if exists|i: int| 0 <= i < loops.len() && (#[trigger] loops[i]).files_written.contains(file) {
            let i = choose|i: int| 0 <= i < loops.len() && (#[trigger] loops[i]).files_written.contains(file);
            if i < n {
                assert(loops[i] == front[i]);
            }
        }
        if exists|i: int| 0 <= i < loops.len() && (#[trigger] loops[i]).files_edited.contains(file) {
            let i = choose|i: int| 0 <= i < loops.len() && (#[trigger] loops[i]).files_edited.contains(file);
            if i < n {
                assert(loops[i] == front[i]);
            }
        }
    }
}

proof fn lemma_contains_add(a: Seq<Seq<char>>, b: Seq<Seq<char>>, x: Seq<char>)
    ensures
        (a + b).contains(x) <==> a.contains(x) || b.contains(x),
{
    let c = a + b;
    if a.contains(x) {
        let i = choose|i: int| 0 <= i < a.len() && a[i] == x;
        assert(c[i] == x);
    }
    if b.contains(x) {
        let i = choose|i: int| 0 <= i < b.len() && b[i] == x;
        assert(c[a.len() + i] == x);
    }
    if c.contains(x) {
        let i = choose|i: int| 0 <= i < c.len() && c[i] == x;
        if i < a.len() {
            assert(a[i] == x);
        } else {
            assert(b[i - a.len()] == x);
        }
    }
}

/// The next steps are told one by one, the first five of them; where there are none, that
/// is told.
pub proof fn law_next_steps_are_told(pending: Seq<Seq<char>>, i: int)
    ensures
        pending.len() == 0 ==> pending_lines(pending) == seq![
            "No pending steps recorded — determine next action from the task file."@,
        ],
        pending.len() > 0 ==> pending_lines(pending).len() == 1 + (if pending.len() < 5 { pending.len() as int } else { 5 }),
        pending.len() > 0 ==> pending_lines(pending)[0] == "Pending next steps:"@,
        0 <= i < pending.len() && i < 5 ==> pending_lines(pending)[i + 1] == "  - "@ + pending[i],
{
}

/// What is told of the last loop is of the last one: its first three commands and its
/// first three errors, where it has any.
pub proof fn law_last_loop_is_told(before: Seq<SummaryView>, s: SummaryView)
    requires
        s.commands_run.len() <= 3,
        s.errors.len() <= 3,
    ensures
        s.commands_run.len() > 0 && s.errors.len() == 0 ==> last_loop_line(before.push(s)) == seq![
            "Last loop — "@ + ("ran: "@ + join_of(s.commands_run, "; "@)) + "."@,
        ],
        s.commands_run.len() == 0 && s.errors.len() > 0 ==> last_loop_line(before.push(s)) == seq![
            "Last loop — "@ + ("errors: "@ + join_of(s.errors, "; "@)) + "."@,
        ],
        s.commands_run.len() > 0 && s.errors.len() > 0 ==> last_loop_line(before.push(s)) == seq![
            "Last loop — "@ + (("ran: "@ + join_of(s.commands_run, "; "@)) + " | "@ + ("errors: "@ + join_of(
                s.errors,
                "; "@,
            ))) + "."@,
        ],
        s.commands_run.len() == 0 && s.errors.len() == 0 ==> last_loop_line(before.push(s)).len() == 0,
{
    assert(before.push(s).last() == s);
    assert(first_n_of(s.commands_run, 3) =~= s.commands_run);
    assert(first_n_of(s.errors, 3) =~= s.errors);
    let ran = "ran: "@ + join_of(s.commands_run, "; "@);
    let failed = "errors: "@ + join_of(s.errors, "; "@);
    let none = Seq::<Seq<char>>::empty();
    if s.commands_run.len() > 0 && s.errors.len() > 0 {
        assert(seq![ran] + seq![failed] =~= seq![ran, failed]);
        crate::text::law_join_adds(seq![ran], seq![failed], " | "@);
        crate::text::law_join_adds(seq![failed], seq![ran], " | "@);
        assert(seq![ran].take(1) =~= seq![ran]);
        assert(seq![failed].take(1) =~= seq![failed]);
    } else if s.commands_run.len() > 0 {
        assert(seq![ran] + none =~= seq![ran]);
        crate::text::law_join_adds(seq![ran], seq![ran], " | "@);
        assert(seq![ran].take(1) =~= seq![ran]);
    } else if s.errors.len() > 0 {
        assert(none + seq![failed] =~= seq![failed]);
        crate::text::law_join_adds(seq![failed], seq![failed], " | "@);
        assert(seq![failed].take(1) =~= seq![failed]);
    }
}

/// Of a last loop with more commands or errors the first three of each are told.
pub proof fn law_no_more_than_three_are_told(before: Seq<SummaryView>, s: SummaryView)
    ensures
        last_loop_line(before.push(s)) == last_loop_line(
            seq![
                SummaryView {
                    commands_run: if s.commands_run.len() > 3 { s.commands_run.take(3) } else { s.commands_run },
                    errors: if s.errors.len() > 3 { s.errors.take(3) } else { s.errors },
                    ..s
                },
            ],
        ),
        last_loop_line(Seq::empty()).len() == 0,
{
    let commands = if s.commands_run.len() > 3 { s.commands_run.take(3) } else { s.commands_run };
    let errors = if s.errors.len() > 3 { s.errors.take(3) } else { s.errors };
    assert(before.push(s).last() == s);
    assert(first_n_of(commands, 3) =~= first_n_of(s.commands_run, 3));
    assert(first_n_of(errors, 3) =~= first_n_of(s.errors, 3));
}

/// The context tells which loop it is, the files of all loops, the last loop and the next
/// steps, in this order; lists that are empty are left out.
pub proof fn law_context_tells_all(
    loop_index: nat,
    agent_loops: nat,
    loops: Seq<SummaryView>,
    pending: Seq<Seq<char>>,
    written: Seq<Seq<char>>,
    edited: Seq<Seq<char>>,
)
    requires
        written == distinct_of(all_written(loops)),
        edited == distinct_of(all_edited(loops)),
    ensures
        ({
            let first = seq!["Loop "@ + decimal(loop_index) + " of "@ + decimal(agent_loops) + "."@];
            let a = seq!["Files created across all prior loops: "@ + join_of(written, ", "@)];
            let b = seq!["Files edited across all prior loops: "@ + join_of(edited, ", "@)];
            let rest = last_loop_line(loops) + pending_lines(pending);
            let told = loop_context(loop_index, agent_loops, loops, pending);
            &&& written.len() > 0 && edited.len() > 0 ==> told == join_of(first + a + b + rest, "\n"@)
            &&& written.len() > 0 && edited.len() == 0 ==> told == join_of(first + a + rest, "\n"@)
            &&& written.len() == 0 && edited.len() > 0 ==> told == join_of(first + b + rest, "\n"@)
            &&& written.len() == 0 && edited.len() == 0 ==> told == join_of(first + rest, "\n"@)
        }),
{
    let first = seq!["Loop "@ + decimal(loop_index) + " of "@ + decimal(agent_loops) + "."@];
    let a = list_line("Files created across all prior loops: "@, written, ", "@);
    let b = list_line("Files edited across all prior loops: "@, edited, ", "@);
    let rest = last_loop_line(loops) + pending_lines(pending);
    assert(first + a + b + last_loop_line(loops) + pending_lines(pending) =~= first + a + b + rest);
    if written.len() == 0 {
        assert(first + a =~= first);
    }
    if edited.len() == 0 {
        assert(first + a + b =~= first + a);
    }
}

/// An author reads the task in the first loop, or is given it, and is told not to read it
/// again in every later one.
pub proof fn law_author_is_oriented(loop_index: nat, task: Seq<char>)
    requires
        task.len() > 0,
    ensures
        orient_step(1, task)
            == "1. The full task specification is provided below — do NOT re-read the task file.\n\n<task_specification>\n"@
            + task + "\n</task_specification>\n"@,
        orient_step(1, Seq::empty()) == "1. Read the task file to orient yourself on the specification.\n"@,
        loop_index != 1 ==> orient_step(loop_index, task) == orient_step(loop_index, Seq::empty()),
        loop_index != 1 ==> orient_step(loop_index, task)
            == "1. The specification and all prior work are already summarised above — do NOT re-read the task file or re-glob the workspace to orient yourself.\n"@,
{
}

/// An author is told the context first, then where to work and what to do.
pub proof fn law_author_is_told_the_context(
    workdir: Seq<char>,
    task_rel: Seq<char>,
    task: Seq<char>,
    loop_index: nat,
    agent_loops: nat,
    loops: Seq<SummaryView>,
    pending: Seq<Seq<char>>,
)
    ensures
        ({
            let told = author_task(workdir, task_rel, task, loop_index, agent_loops, loops, pending);
            let context = loop_context(loop_index, agent_loops, loops, pending);
            &&& context.is_prefix_of(told)
            &&& told.skip(context.len() as int) == "\n\nWorking directory: "@ + workdir + "\nTask file: "@ + task_rel
                + AUTHOR_GOAL@ + orient_step(loop_index, task) + AUTHOR_PROTOCOL@
        }),
{
    let told = author_task(workdir, task_rel, task, loop_index, agent_loops, loops, pending);
    let context = loop_context(loop_index, agent_loops, loops, pending);
    let rest = "\n\nWorking directory: "@ + workdir + "\nTask file: "@ + task_rel + AUTHOR_GOAL@ + orient_step(
        loop_index,
        task,
    ) + AUTHOR_PROTOCOL@;
    assert(told =~= context + rest);
    assert(told.subrange(0, context.len() as int) =~= context);
    assert(told.skip(context.len() as int) =~= rest);
}

/// Each item of a list below a heading has a line of its own, in order.
pub proof fn law_every_item_is_listed(heading: Seq<char>, list: Seq<Seq<char>>, i: int)
    ensures
        list.len() == 0 ==> listed_below(heading, list).len() == 0,
        list.len() > 0 ==> listed_below(heading, list).len() == list.len() + 1 && listed_below(heading, list)[0] == heading,
        0 <= i < list.len() ==> listed_below(heading, list)[i + 1] == "  "@ + list[i],
{
}

/// A review is told everything that the loop has done, file by file, command by command
/// and error by error, or that it has done nothing.
pub proof fn law_review_sees_every_action(loop_index: nat, s: SummaryView)
    ensures
        ({
            let head = seq!["## Verified actions from loop "@ + decimal(loop_index) + " (harness-computed)"@];
            let lines = verified_lines(loop_index, s);
            &&& lines[0] == head[0]
            &&& s.files_read.len() > 0 ==> lines.contains("Files read: "@ + join_of(s.files_read, ", "@))
            &&& s.files_written.len() > 0 ==> lines.contains("Files written: "@ + join_of(s.files_written, ", "@))
            &&& s.files_edited.len() > 0 ==> lines.contains("Files edited: "@ + join_of(s.files_edited, ", "@))
            &&& forall|i: int| 0 <= i < s.commands_run.len() ==> lines.contains("  "@ + #[trigger] s.commands_run[i])
            &&& forall|i: int| 0 <= i < s.errors.len() ==> lines.contains("  "@ + #[trigger] s.errors[i])
            &&& s.files_read.len() == 0 && s.files_written.len() == 0 && s.files_edited.len() == 0
                && s.commands_run.len() == 0 && s.errors.len() == 0 ==> lines =~= head + seq!["  (no verified actions)"@]
        }),
{
    let head = seq!["## Verified actions from loop "@ + decimal(loop_index) + " (harness-computed)"@];
    let lines = verified_lines(loop_index, s);
    let a = list_line("Files read: "@, s.files_read, ", "@);
    let b = list_line("Files written: "@, s.files_written, ", "@);
    let c = list_line("Files edited: "@, s.files_edited, ", "@);
    let d = listed_below("Commands run:"@, s.commands_run);
    let e = listed_below("Errors:"@, s.errors);
    let f = if nothing_done(s) {
        seq!["  (no verified actions)"@]
    } else {
        Seq::empty()
    };
    assert(lines == head + a + b + c + d + e + f);
    if s.files_read.len() > 0 {
        assert(lines[1] == a[0]);
    }
    if s.files_written.len() > 0 {
        assert(lines[1 + a.len() as int] == b[0]);
    }
    if s.files_edited.len() > 0 {
        assert(lines[1 + a.len() as int + b.len()] == c[0]);
    }
    assert forall|i: int| 0 <= i < s.commands_run.len() implies lines.contains("  "@ + #[trigger] s.commands_run[i]) by {
        assert(lines[1 + a.len() + b.len() + c.len() + 1 + i] == d[i + 1]);
    }
    assert forall|i: int| 0 <= i < s.errors.len() implies lines.contains("  "@ + #[trigger] s.errors[i]) by {
        assert(lines[1 + a.len() + b.len() + c.len() + d.len() + 1 + i] == e[i + 1]);
    }
}

/// A review is told the calls that were not carried out, and the whole answer of the
/// author, where there are any.
pub proof fn law_review_sees_answer_and_rejections(loop_index: nat, s: SummaryView, answer: Seq<char>)
    ensures
        answer.len() == 0 ==> report_block(loop_index, answer).len() == 0,
        answer.len() > 0 ==> report_block(loop_index, answer) == "\n[Author agent report — loop "@ + decimal(loop_index)
            + "]\n\n"@ + answer + "\n\n"@,
        s.rejected.len() == 0 ==> rejected_block(s).len() == 0,
        s.rejected.len() > 0 ==> rejected_block(s) == join_of(
            seq!["## Attempted but NOT executed (harness-rejected — no workspace effect)"@] + s.rejected.map_values(
                |l: Seq<char>| "  "@ + l,
            ),
            "\n"@,
        ) + "\n\n"@,
{
}

/// A review is told where it works and what to write, then what the loop has done, what
/// was rejected and what the author says, and at last its job.
pub proof fn law_review_is_told_all(
    workdir: Seq<char>,
    task_rel: Seq<char>,
    output_rel: Seq<char>,
    loop_index: nat,
    s: SummaryView,
    answer: Seq<char>,
)
    ensures
        ({
            let told = review_task(workdir, task_rel, output_rel, loop_index, s, answer);
            let head = "Working directory: "@ + workdir + "\nTask file: "@ + task_rel
                + " (read-only)\nReview output: "@ + output_rel + " (write here)\n\nPHASE: REVIEW\n\n"@;
            &&& head.is_prefix_of(told)
            &&& told.skip(head.len() as int) == join_of(verified_lines(loop_index, s), "\n"@) + "\n\n"@
                + rejected_block(s) + report_block(loop_index, answer) + REVIEW_JOB@ + decimal(loop_index)
                + REVIEW_RULES@
        }),
{
    let told = review_task(workdir, task_rel, output_rel, loop_index, s, answer);
    let head = "Working directory: "@ + workdir + "\nTask file: "@ + task_rel + " (read-only)\nReview output: "@
        + output_rel + " (write here)\n\nPHASE: REVIEW\n\n"@;
    let rest = join_of(verified_lines(loop_index, s), "\n"@) + "\n\n"@ + rejected_block(s) + report_block(
        loop_index,
        answer,
    ) + REVIEW_JOB@ + decimal(loop_index) + REVIEW_RULES@;
    assert(told =~= head + rest);
    assert(told.subrange(0, head.len() as int) =~= head);
    assert(told.skip(head.len() as int) =~= rest);
}

} // verus!
