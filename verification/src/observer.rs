//! What is shown of a run while it goes on.
use vstd::prelude::*;

use crate::numbers::{decimal, grouped, grouped_of};
use crate::summary::{diagnostic_result_hint, result_hint_of};
use crate::text::{lemma_texts_push, lines, lines_of, texts};
use crate::usage::TokenUsage;

verus! {

/// Shows a run on a console.
pub struct ConsoleObserver;

/// A count with its digits in groups.
pub open spec fn count_text(n: u64) -> Seq<char> {
    grouped_of(decimal(n as nat))
}

/// The counts of a cache, where it was used.
pub open spec fn cache_text(u: TokenUsage) -> Seq<char> {
    if u.cache_write > 0 || u.cache_read > 0 {
        "  cache_write "@ + count_text(u.cache_write) + "  cache_read "@ + count_text(u.cache_read)
    } else {
        ""@
    }
}

/// The count of reasoning, where there was any.
pub open spec fn reasoning_text(u: TokenUsage) -> Seq<char> {
    if u.reasoning > 0 {
        "  rsn "@ + count_text(u.reasoning)
    } else {
        ""@
    }
}

/// The counts in a line, behind a label.
pub open spec fn usage_line(label: Seq<char>, u: TokenUsage) -> Seq<char> {
    label + "  in "@ + count_text(u.input) + "  out "@ + count_text(u.output) + reasoning_text(u) + cache_text(u)
        + "  total "@ + count_text(u.sum() as u64)
}

/// A line of thoughts, dimmed where the console can.
pub open spec fn thought_line(line: Seq<char>, ansi: bool) -> Seq<char> {
    "    │ "@ + (if ansi { "\x1b[2m"@ } else { ""@ }) + line + (if ansi { "\x1b[0m"@ } else { ""@ })
}

/// The lines of thoughts.
pub open spec fn thought_lines(text: Seq<char>, ansi: bool) -> Seq<Seq<char>> {
    if text.len() == 0 {
        seq![thought_line(Seq::empty(), ansi)]
    } else {
        lines_of(text).map_values(|l: Seq<char>| thought_line(l, ansi))
    }
}

/// What is shown of a reply.
pub open spec fn reply_lines(u: TokenUsage, reasoning: Seq<char>, ansi: bool) -> Seq<Seq<char>> {
    (if reasoning.len() > 0 { thought_lines(reasoning, ansi) } else { Seq::empty() }).push(
        usage_line("    usage"@, u),
    )
}

/// A text filled up with blanks to a width.
pub open spec fn filled(s: Seq<char>, width: nat) -> Seq<char> {
    if s.len() >= width {
        s
    } else {
        s + Seq::new((width - s.len()) as nat, |i: int| ' ')
    }
}

/// The counts of a cache, where it was used.
fn cache_part(u: &TokenUsage) -> (r: String)
    ensures
        r@ == cache_text(*u),
{
    if u.cache_write > 0 || u.cache_read > 0 {
        let mut out = String::from_str("  cache_write ");
        out.append(grouped(u.cache_write).as_str());
        out.append("  cache_read ");
        out.append(grouped(u.cache_read).as_str());
        out
    } else {
        String::from_str("")
    }
}

/// The count of reasoning, where there was any.
fn reasoning_part(u: &TokenUsage) -> (r: String)
    ensures
        r@ == reasoning_text(*u),
{
    if u.reasoning > 0 {
        let mut out = String::from_str("  rsn ");
        out.append(grouped(u.reasoning).as_str());
        out
    } else {
        String::from_str("")
    }
}

/// The counts in a line, behind a label.
fn usage_text(label: &str, u: &TokenUsage) -> (r: String)
    requires
        u.sum() <= u64::MAX,
    ensures
        r@ == usage_line(label@, *u),
{
    let mut out = String::from_str(label);
    out.append("  in ");
    out.append(grouped(u.input).as_str());
    out.append("  out ");
    out.append(grouped(u.output).as_str());
    out.append(reasoning_part(u).as_str());
    out.append(cache_part(u).as_str());
    out.append("  total ");
    out.append(grouped(u.total()).as_str());
    out
}

/// A line of thoughts, dimmed where the console can.
fn thought_text(line: &str, ansi: bool) -> (r: String)
    ensures
        r@ == thought_line(line@, ansi),
{
    let mut out = String::from_str("    │ ");
    out.append(if ansi { "\x1b[2m" } else { "" });
    out.append(line);
    out.append(if ansi { "\x1b[0m" } else { "" });
    out
}

/// The lines of thoughts.
pub fn reasoning_block(text: &str, ansi: bool) -> (r: Vec<String>)
    ensures
        texts(r@) == thought_lines(text@, ansi),
{
    let mut out: Vec<String> = Vec::new();
    if text.is_empty() {
        let nothing = String::new();
        out.push(thought_text(nothing.as_str(), ansi));
        assert(texts(out@) =~= seq![thought_line(Seq::empty(), ansi)]);
        return out;
    }
    let all = lines(text);
    let ghost shown = lines_of(text@).map_values(|l: Seq<char>| thought_line(l, ansi));
    for i in 0..all.len()
        invariant
            texts(all@) == lines_of(text@),
            out@.len() == i,
            forall|k: int| 0 <= k < i ==> (#[trigger] out@[k])@ == thought_line(texts(all@)[k], ansi),
    {
        assert(texts(all@)[i as int] == all@[i as int]@);
        out.push(thought_text(all[i].as_str(), ansi));
    }
    assert(texts(all@).len() == all@.len());
    assert(texts(out@) =~= shown);
    out
}

/// A text filled up with blanks to a width.
fn fill(s: &str, width: usize) -> (r: String)
    ensures
        r@ == filled(s@, width as nat),
{
    let n = s.unicode_len();
    let mut out = String::from_str(s);
    if n >= width {
        return out;
    }
    assert(out@ =~= s@ + Seq::new(0nat, |k: int| ' '));
    for i in 0..width - n
        invariant
            n < width,
            out@ == s@ + Seq::new(i as nat, |k: int| ' '),
    {
        out.push(' ');
        assert(out@ =~= s@ + Seq::new((i + 1) as nat, |k: int| ' '));
    }
    out
}

impl ConsoleObserver {
    /// What is shown of a reply, line by line.
    pub fn on_model_response(&self, usage: &TokenUsage, reasoning: &str, ansi: bool) -> (r: Vec<String>)
        requires
            usage.sum() <= u64::MAX,
        ensures
            texts(r@) == reply_lines(*usage, reasoning@, ansi),
    {
        let mut out: Vec<String> = Vec::new();
        if !reasoning.is_empty() {
            out = reasoning_block(reasoning, ansi);
        } else {
            assert(texts(out@) =~= Seq::empty());
        }
        let line = usage_text("    usage", usage);
        proof { lemma_texts_push(out@, line); }
        out.push(line);
        out
    }

    /// What is shown when a tool is called, without the end of the line.
    pub fn on_tool_start(&self, name: &str, args_preview: &str) -> (r: String)
        ensures
            r@ == "    ▸ "@ + filled(name@, 5) + "  "@ + filled(args_preview@, 60),
    {
        let mut out = String::from_str("    ▸ ");
        out.append(fill(name, 5).as_str());
        out.append("  ");
        out.append(fill(args_preview, 60).as_str());
        out
    }

    /// What is shown at the end of that line when the tool has answered.
    pub fn on_tool_end(&self, name: &str, output: &str) -> (r: String)
        ensures
            r@ == "  "@ + result_hint_of(name@, output@),
    {
        let mut out = String::from_str("  ");
        out.append(diagnostic_result_hint(name, output).as_str());
        out
    }

    /// What is shown when the run has ended, behind an empty line.
    pub fn on_run_end(&self, usage: &TokenUsage) -> (r: String)
        requires
            usage.sum() <= u64::MAX,
        ensures
            r@ == usage_line("  tokens"@, *usage),
    {
        usage_text("  tokens", usage)
    }
}

// ---------------------------------------------------------------------------
// Laws
// ---------------------------------------------------------------------------

/// Every line of the thoughts is shown, in order, dimmed where the console can; thoughts
/// that say nothing are one empty line.
pub proof fn law_every_thought_is_shown(text: Seq<char>, ansi: bool, i: int)
    ensures
        text.len() == 0 ==> thought_lines(text, ansi).len() == 1,
        text.len() > 0 ==> thought_lines(text, ansi).len() == lines_of(text).len(),
        text.len() > 0 && 0 <= i < lines_of(text).len() && ansi ==> thought_lines(text, ansi)[i] == "    │ "@ + "\x1b[2m"@
            + lines_of(text)[i] + "\x1b[0m"@,
        text.len() > 0 && 0 <= i < lines_of(text).len() && !ansi ==> thought_lines(text, ansi)[i] == "    │ "@
            + lines_of(text)[i],
{
    reveal_strlit("");
    if text.len() > 0 && 0 <= i < lines_of(text).len() && !ansi {
        assert(thought_line(lines_of(text)[i], ansi) =~= "    │ "@ + lines_of(text)[i]);
    }
}

/// A reply is shown with its thoughts, where there are any, and the tokens behind them.
pub proof fn law_reply_is_shown(u: TokenUsage, reasoning: Seq<char>, ansi: bool)
    ensures
        reasoning.len() == 0 ==> reply_lines(u, reasoning, ansi) == seq![usage_line("    usage"@, u)],
        reasoning.len() > 0 ==> reply_lines(u, reasoning, ansi).drop_last() == thought_lines(reasoning, ansi),
        reply_lines(u, reasoning, ansi).last() == usage_line("    usage"@, u),
{
    if reasoning.len() == 0 {
        assert(reply_lines(u, reasoning, ansi) =~= seq![usage_line("    usage"@, u)]);
    } else {
        assert(reply_lines(u, reasoning, ansi).drop_last() =~= thought_lines(reasoning, ansi));
    }
}

/// The counts are shown kind by kind, in groups of digits: what went in and came out
/// always, reasoning and the cache where there was any, and the total.
pub proof fn law_counts_are_shown(label: Seq<char>, u: TokenUsage)
    ensures
        ({
            let input = label + "  in "@ + grouped_of(decimal(u.input as nat));
            let both = input + "  out "@ + grouped_of(decimal(u.output as nat));
            let thought = both + "  rsn "@ + grouped_of(decimal(u.reasoning as nat));
            let cache = "  cache_write "@ + grouped_of(decimal(u.cache_write as nat)) + "  cache_read "@ + grouped_of(
                decimal(u.cache_read as nat),
            );
            let total = "  total "@ + grouped_of(decimal((u.sum() as u64) as nat));
            let cached = u.cache_write > 0 || u.cache_read > 0;
            &&& u.reasoning == 0 && !cached ==> usage_line(label, u) == both + total
            &&& u.reasoning == 0 && cached ==> usage_line(label, u) == both + cache + total
            &&& u.reasoning > 0 && !cached ==> usage_line(label, u) == thought + total
            &&& u.reasoning > 0 && cached ==> usage_line(label, u) == thought + cache + total
        }),
{
    reveal_strlit("");
    let input = label + "  in "@ + grouped_of(decimal(u.input as nat));
    let both = input + "  out "@ + grouped_of(decimal(u.output as nat));
    let thought = both + "  rsn "@ + grouped_of(decimal(u.reasoning as nat));
    let cache = "  cache_write "@ + grouped_of(decimal(u.cache_write as nat)) + "  cache_read "@ + grouped_of(
        decimal(u.cache_read as nat),
    );
    let total = "  total "@ + grouped_of(decimal((u.sum() as u64) as nat));
    if u.reasoning == 0 {
        assert(both + reasoning_text(u) =~= both);
        if u.cache_write > 0 || u.cache_read > 0 {
            assert(usage_line(label, u) =~= both + cache + total);
        } else {
            assert(usage_line(label, u) =~= both + total);
        }
    } else {
        assert(both + reasoning_text(u) =~= thought);
        if u.cache_write > 0 || u.cache_read > 0 {
            assert(usage_line(label, u) =~= thought + cache + total);
        } else {
            assert(usage_line(label, u) =~= thought + total);
        }
    }
}

/// A text that is filled up is followed by blanks up to the width, and by no more.
pub proof fn law_filling_adds_blanks(s: Seq<char>, width: nat, i: int)
    ensures
        filled(s, width).len() == if s.len() < width { width } else { s.len() },
        s.is_prefix_of(filled(s, width)),
        s.len() <= i < filled(s, width).len() ==> filled(s, width)[i] == ' ',
{
    assert(filled(s, width).subrange(0, s.len() as int) =~= s);
}

} // verus!
