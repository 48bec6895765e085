//! What the model is told of the run so far, and hints that are added to the talk.
use vstd::prelude::*;

use crate::json::{array, group_json_views, list_view, object2, text_value, Json, JsonView};
use crate::model::anthropic::{has_role, is_role, message, message_value, text_block};
use crate::numbers::{decimal, decimal_text};
use crate::ordered::lookup;
use crate::summary::{ellipsis_of, truncate_with_ellipsis};
use crate::text::{begins, contains_of, find, find_of, is_space, join, join_of, last_n_of, lemma_find, lemma_find_at, lemma_texts_push, occurs_at, replace, replace_of, same, starts_with, texts, trim, trim_of, trim_start, trim_start_of};
use super::AgentPolicy;

verus! {

/// A tool call and what came of it, in short.
pub struct RecentEntry {
    pub tool: String,
    pub args_preview: String,
    pub summary: String,
    pub ok: bool,
}

/// What an entry says.
pub struct RecentView {
    pub tool: Seq<char>,
    pub args_preview: Seq<char>,
    pub summary: Seq<char>,
    pub ok: bool,
}

impl RecentEntry {
    /// What the entry says.
    pub open spec fn view(&self) -> RecentView {
        RecentView { tool: self.tool@, args_preview: self.args_preview@, summary: self.summary@, ok: self.ok }
    }
}

/// What a list of entries says.
pub open spec fn recent_view(v: Seq<RecentEntry>) -> Seq<RecentView> {
    v.map_values(|e: RecentEntry| e@)
}

// ---------------------------------------------------------------------------
// The context block
// ---------------------------------------------------------------------------

/// How the block begins.
pub const MARKER: &'static str = "WORKSPACE CONTEXT";

/// The line that tells of a tool call.
pub open spec fn recent_line(e: RecentView) -> Seq<char> {
    "  - "@ + e.tool + "("@ + e.args_preview + "): "@ + ellipsis_of(replace_of(e.summary, "\n"@, " | "@), 240)
}

/// The lines that tell of errors.
pub open spec fn error_lines(errors: Seq<Seq<char>>) -> Seq<Seq<char>> {
    if errors.len() > 0 {
        seq!["- recent_errors:"@] + last_n_of(errors, 3).map_values(|e: Seq<char>| "  - "@ + e)
    } else {
        Seq::empty()
    }
}

/// The lines that tell of tool calls.
pub open spec fn recent_lines(recent: Seq<RecentView>) -> Seq<Seq<char>> {
    if recent.len() > 0 {
        seq!["- recent_tool_results:"@] + last_n_of(recent, 10).map_values(|e: RecentView| recent_line(e))
    } else {
        Seq::empty()
    }
}

/// What the model is told of the run so far.
pub open spec fn context_block(
    calls_total: nat,
    errors: Seq<Seq<char>>,
    recent: Seq<RecentView>,
    iteration: nat,
    max_iterations: nat,
    max_calls: nat,
) -> Seq<char> {
    let head = seq![
        "WORKSPACE CONTEXT"@,
        "- iteration: "@ + decimal(iteration) + "/"@ + decimal(max_iterations),
        "- tool_calls_total: "@ + decimal(calls_total) + "/"@ + decimal(max_calls),
    ];
    trim_of(join_of(head + error_lines(errors) + recent_lines(recent), "\n"@))
}

/// Adds a text to a list.
fn add_line(out: &mut Vec<String>, line: String)
    ensures
        texts(final(out)@) == texts(old(out)@).push(line@),
{
    proof { lemma_texts_push(out@, line); }
    out.push(line);
}

/// A line that gives a count and its limit.
fn ratio_line(label: &str, n: u64, of: u64) -> (r: String)
    ensures
        r@ == label@ + decimal(n as nat) + "/"@ + decimal(of as nat),
{
    let mut out = String::from_str(label);
    out.append(decimal_text(n).as_str());
    out.append("/");
    out.append(decimal_text(of).as_str());
    out
}

/// Adds the lines that tell of errors.
fn add_errors(out: &mut Vec<String>, errors: &Vec<String>)
    ensures
        texts(final(out)@) == texts(old(out)@) + error_lines(texts(errors@)),
{
    let ghost start = texts(out@);
    let ghost all = texts(errors@);
    let n = errors.len();
    if n == 0 {
        assert(start + error_lines(all) =~= start);
        return;
    }
    add_line(out, String::from_str("- recent_errors:"));
    let from: usize = if n > 3 { n - 3 } else { 0 };
    let ghost last = last_n_of(all, 3);
    let ghost shown = last.map_values(|e: Seq<char>| "  - "@ + e);
    assert(last =~= all.skip(from as int));
    let ghost head = start.push("- recent_errors:"@);
    assert(head + shown.take(0) =~= head);
    for i in from..n
        invariant
            from <= i <= n == errors@.len(),
            all == texts(errors@),
            last == all.skip(from as int),
            shown == last.map_values(|e: Seq<char>| "  - "@ + e),
            texts(out@) == head + shown.take(i - from),
    {
        let mut line = String::from_str("  - ");
        line.append(errors[i].as_str());
        assert(shown[i - from] == line@);
        add_line(out, line);
        assert(head + shown.take(i + 1 - from) =~= (head + shown.take(i - from)).push(shown[i - from]));
    }
    assert(shown.take(n - from) =~= shown);
    assert(head + shown =~= start + error_lines(all));
}

/// Adds the lines that tell of tool calls.
fn add_recent(out: &mut Vec<String>, recent: &Vec<RecentEntry>)
    ensures
        texts(final(out)@) == texts(old(out)@) + recent_lines(recent_view(recent@)),
{
    let ghost start = texts(out@);
    let ghost all = recent_view(recent@);
    let n = recent.len();
    if n == 0 {
        assert(start + recent_lines(all) =~= start);
        return;
    }
    add_line(out, String::from_str("- recent_tool_results:"));
    let from: usize = if n > 10 { n - 10 } else { 0 };
    let ghost last = last_n_of(all, 10);
    let ghost shown = last.map_values(|e: RecentView| recent_line(e));
    assert(last =~= all.skip(from as int));
    let ghost head = start.push("- recent_tool_results:"@);
    assert(head + shown.take(0) =~= head);
    for i in from..n
        invariant
            from <= i <= n == recent@.len(),
            all == recent_view(recent@),
            last == all.skip(from as int),
            shown == last.map_values(|e: RecentView| recent_line(e)),
            texts(out@) == head + shown.take(i - from),
    {
        let e = &recent[i];
        let mut line = String::from_str("  - ");
        line.append(e.tool.as_str());
        line.append("(");
        line.append(e.args_preview.as_str());
        line.append("): ");
        line.append(truncate_with_ellipsis(replace(e.summary.as_str(), "\n", " | ").as_str(), 240).as_str());
        assert(last[i - from] == e@);
        assert(shown[i - from] == line@);
        add_line(out, line);
        assert(head + shown.take(i + 1 - from) =~= (head + shown.take(i - from)).push(shown[i - from]));
    }
    assert(shown.take(n - from) =~= shown);
    assert(head + shown =~= start + recent_lines(all));
}

/// What the model is told of the run so far.
pub fn workspace_context_block(
    calls_total: u64,
    recent_errors: &Vec<String>,
    recent: &Vec<RecentEntry>,
    iteration: u32,
    max_iterations: u32,
    policy: &AgentPolicy,
) -> (r: String)
    ensures
        r@ == context_block(
            calls_total as nat,
            texts(recent_errors@),
            recent_view(recent@),
            iteration as nat,
            max_iterations as nat,
            policy.max_tool_calls_total as nat,
        ),
{
    let mut out: Vec<String> = Vec::new();
    add_line(&mut out, String::from_str("WORKSPACE CONTEXT"));
    add_line(&mut out, ratio_line("- iteration: ", iteration as u64, max_iterations as u64));
    add_line(&mut out, ratio_line("- tool_calls_total: ", calls_total, policy.max_tool_calls_total as u64));
    assert(texts(out@) =~= seq![
        "WORKSPACE CONTEXT"@,
        "- iteration: "@ + decimal(iteration as nat) + "/"@ + decimal(max_iterations as nat),
        "- tool_calls_total: "@ + decimal(calls_total as nat) + "/"@ + decimal(policy.max_tool_calls_total as nat),
    ]);
    add_errors(&mut out, recent_errors);
    add_recent(&mut out, recent);
    let all = join(&out, "\n");
    String::from_str(trim(all.as_str()))
}

// ---------------------------------------------------------------------------
// Where the block goes
// ---------------------------------------------------------------------------

/// What stands before the block in a text.
pub open spec fn before_block(content: Seq<char>) -> Seq<char> {
    match find_of(content, "\n\nWORKSPACE CONTEXT"@) {
        Some(i) => content.take(i),
        None => if begins(content, "WORKSPACE CONTEXT"@) {
            Seq::empty()
        } else {
            content
        },
    }
}

/// A text with the block at its end, in place of any block that it has.
pub open spec fn text_with_block(content: Seq<char>, block: Seq<char>) -> Seq<char> {
    trim_start_of(before_block(content) + "\n\n"@ + block)
}

/// The value is a block of text that tells of the run.
pub open spec fn is_context(b: JsonView) -> bool {
    b.get_str("type"@) == Some("text"@) && (b.get_str("text"@) matches Some(t) && begins(t, "WORKSPACE CONTEXT"@))
}

/// The blocks that do not tell of the run.
pub open spec fn without_context(blocks: Seq<JsonView>) -> Seq<JsonView>
    decreases blocks.len(),
{
    if blocks.len() == 0 {
        Seq::empty()
    } else if is_context(blocks.last()) {
        without_context(blocks.drop_last())
    } else {
        without_context(blocks.drop_last()).push(blocks.last())
    }
}

/// A message can take the block: it is a user message of text or of blocks.
pub open spec fn takes_block(m: JsonView) -> bool {
    has_role(m, "user"@) && match m.get("content"@) {
        Some(JsonView::Str(_)) => true,
        Some(JsonView::Array(_)) => true,
        _ => false,
    }
}

/// A message with the block, in place of any block that it has.
pub open spec fn message_with_block(m: JsonView, block: Seq<char>) -> JsonView {
    match m.get("content"@) {
        Some(JsonView::Str(c)) => m.with("content"@, JsonView::Str(text_with_block(c, block))),
        Some(JsonView::Array(blocks)) => m.with(
            "content"@,
            JsonView::Array(without_context(blocks).push(text_block(block))),
        ),
        _ => m,
    }
}

/// The position of the last message that can take the block, or -1.
pub open spec fn block_place(messages: Seq<JsonView>) -> int
    decreases messages.len(),
{
    if messages.len() == 0 {
        -1
    } else if takes_block(messages.last()) {
        messages.len() - 1
    } else {
        block_place(messages.drop_last())
    }
}

/// The talk with the block on the last message that can take it, or behind it all.
pub open spec fn with_context(messages: Seq<JsonView>, block: Seq<char>) -> Seq<JsonView> {
    let i = block_place(messages);
    if 0 <= i < messages.len() {
        messages.update(i, message_with_block(messages[i], block))
    } else {
        messages.push(message("user"@, JsonView::Str(block)))
    }
}

/// A text with the block at its end.
fn put_block(content: &str, block: &str) -> (r: String)
    ensures
        r@ == text_with_block(content@, block@),
{
    proof { lemma_find(content@, "\n\nWORKSPACE CONTEXT"@); }
    let mut out = match find(content, "\n\nWORKSPACE CONTEXT") {
        Some(i) => {
            assert(content@.subrange(0, i as int) =~= content@.take(i as int));
            let end = content.unicode_len();
            assert(i <= end);
            String::from_str(content.substring_char(0, i))
        },
        None => if starts_with(content, "WORKSPACE CONTEXT") {
            String::new()
        } else {
            String::from_str(content)
        },
    };
    out.append("\n\n");
    out.append(block);
    String::from_str(trim_start(out.as_str()))
}

/// Whether the value is a block of text that tells of the run.
fn tells_context(b: &Json) -> (r: bool)
    ensures
        r == is_context(b@),
{
    match b.get_str("type") {
        Some(t) => if same(t, "text") {
            match b.get_str("text") {
                Some(s) => starts_with(s, "WORKSPACE CONTEXT"),
                None => false,
            }
        } else {
            false
        },
        None => false,
    }
}

/// The blocks that do not tell of the run.
fn drop_context(blocks: &Vec<Json>) -> (r: Vec<Json>)
    ensures
        list_view(r@) == without_context(list_view(blocks@)),
{
    broadcast use group_json_views;

    let ghost all = list_view(blocks@);
    let mut out: Vec<Json> = Vec::new();
    assert(list_view(out@) =~= without_context(all.take(0)));
    for i in 0..blocks.len()
        invariant
            all == list_view(blocks@),
            list_view(out@) == without_context(all.take(i as int)),
    {
        proof {
            assert(all.take(i + 1).drop_last() =~= all.take(i as int));
            assert(all.take(i + 1).last() == blocks@[i as int]@);
        }
        if !tells_context(&blocks[i]) {
            out.push(blocks[i].copy());
        }
    }
    assert(all.take(blocks@.len() as int) =~= all);
    out
}

/// A message with the block, where it is of text or of blocks.
fn put_on_message(m: &Json, block: &str) -> (r: Option<Json>)
    ensures
        match r {
            Some(n) => {
                &&& n@ == message_with_block(m@, block@)
                &&& m@.get("content"@) matches Some(c) && (c is Str || c is Array)
            },
            None => !(m@.get("content"@) matches Some(c) && (c is Str || c is Array)),
        },
{
    broadcast use group_json_views;

    match m.get("content") {
        Some(Json::Str(c)) => Some(m.copy().with("content", Json::Str(put_block(c.as_str(), block)))),
        Some(Json::Array(blocks)) => {
            let mut kept = drop_context(blocks);
            let new = object2("text", text_value(block), "type", text_value("text"));
            assert(new@ == text_block(block@));
            kept.push(new);
            Some(m.copy().with("content", array(kept)))
        },
        _ => None,
    }
}

/// Puts the block on the last message that can take it, or behind the whole talk.
pub fn upsert_workspace_context(messages: &mut Vec<Json>, block: &str)
    ensures
        list_view(final(messages)@) == with_context(list_view(old(messages)@), block@),
{
    broadcast use group_json_views;

    let ghost all = list_view(messages@);
    let mut i: usize = messages.len();
    assert(all.take(i as int) =~= all);
    while i > 0
        invariant
            i <= messages@.len(),
            all == list_view(messages@),
            all == list_view(old(messages)@),
            block_place(all) == block_place(all.take(i as int)),
        decreases i,
    {
        proof {
            assert(all.take(i as int).drop_last() =~= all.take(i - 1));
            assert(all.take(i as int).last() == messages@[i - 1]@);
            assert(all[i - 1] == messages@[i - 1]@);
        }
        i = i - 1;
        if is_role(&messages[i], "user") {
            let new = put_on_message(&messages[i], block);
            if let Some(m) = new {
                let ghost newv = m@;
                messages.set(i, m);
                assert(list_view(messages@) =~= all.update(i as int, newv));
                return;
            }
        }
    }
    assert(all.take(0) =~= Seq::empty());
    messages.push(message_value("user", text_value(block)));
}

// ---------------------------------------------------------------------------
// Hints
// ---------------------------------------------------------------------------

/// The talk with a hint: at the end of the last message, where it is of text, or
/// else behind it.
pub open spec fn with_hint(messages: Seq<JsonView>, hint: Seq<char>) -> Seq<JsonView> {
    if messages.len() > 0 && messages.last().get_str("content"@) is Some {
        messages.drop_last().push(
            messages.last().with(
                "content"@,
                JsonView::Str(messages.last().get_str("content"@)->Some_0 + "\n\n"@ + hint),
            ),
        )
    } else {
        messages.push(message("user"@, JsonView::Str(hint)))
    }
}

/// Adds a hint to the talk.
pub fn append_hint(messages: &mut Vec<Json>, hint: &str)
    ensures
        list_view(final(messages)@) == with_hint(list_view(old(messages)@), hint@),
{
    broadcast use group_json_views;

    let ghost all = list_view(messages@);
    let n = messages.len();
    if n > 0 {
        assert(all.last() == messages@[n - 1]@);
        if let Some(c) = messages[n - 1].get_str("content") {
            let mut text = String::from_str(c);
            text.append("\n\n");
            text.append(hint);
            let m = messages[n - 1].copy().with("content", Json::Str(text));
            let ghost newv = m@;
            messages.set(n - 1, m);
            assert(list_view(messages@) =~= all.drop_last().push(newv));
            return;
        }
    }
    messages.push(message_value("user", text_value(hint)));
}

// ---------------------------------------------------------------------------
// Laws
// ---------------------------------------------------------------------------

/// The place of the block, where there is one, is a message that can take it.
proof fn lemma_block_place(messages: Seq<JsonView>)
    ensures
        -1 <= block_place(messages) < messages.len(),
        0 <= block_place(messages) ==> takes_block(messages[block_place(messages)]),
    decreases messages.len(),
{
    if messages.len() > 0 && !takes_block(messages.last()) {
        lemma_block_place(messages.drop_last());
    }
}

/// Telling the model of the run changes no message but one of the user: the system
/// message, above all, stays as it is, so that the server can keep it.
pub proof fn law_context_leaves_system_alone(messages: Seq<JsonView>, block: Seq<char>, i: int)
    requires
        0 <= i < messages.len(),
        !has_role(messages[i], "user"@),
    ensures
        messages.len() <= with_context(messages, block).len() <= messages.len() + 1,
        with_context(messages, block)[i] == messages[i],
{
    lemma_block_place(messages);
}

/// A system message is no user message.
pub proof fn law_system_is_not_user(m: JsonView)
    requires
        has_role(m, "system"@),
    ensures
        !has_role(m, "user"@),
{
    reveal_strlit("system");
    reveal_strlit("user");
    assert("system"@.len() == 6 && "user"@.len() == 4);
}

/// What the model is told of the run begins with its mark.
pub proof fn law_block_begins_with_mark(
    calls_total: nat,
    errors: Seq<Seq<char>>,
    recent: Seq<RecentView>,
    iteration: nat,
    max_iterations: nat,
    max_calls: nat,
)
    ensures
        begins(context_block(calls_total, errors, recent, iteration, max_iterations, max_calls), "WORKSPACE CONTEXT"@),
{
    let mark = "WORKSPACE CONTEXT"@;
    reveal_strlit("WORKSPACE CONTEXT");
    let head = seq![
        mark,
        "- iteration: "@ + decimal(iteration) + "/"@ + decimal(max_iterations),
        "- tool_calls_total: "@ + decimal(calls_total) + "/"@ + decimal(max_calls),
    ];
    let lines = head + error_lines(errors) + recent_lines(recent);
    assert(lines[0] == mark);
    let whole = join_of(lines, "\n"@);
    lemma_join_begins(lines, "\n"@);
    assert(whole[0] == mark[0]) by {
        assert(whole.take(mark.len() as int)[0] == mark[0]);
    }
    assert(whole[16] == mark[16]) by {
        assert(whole.take(mark.len() as int)[16] == mark[16]);
    }
    assert(mark.len() == 17);
    assert(trim_start_of(whole) == whole);
    crate::text::lemma_trim_end_keeps(whole, 16);
}

/// A joined text begins with its first part.
proof fn lemma_join_begins(parts: Seq<Seq<char>>, sep: Seq<char>)
    requires
        parts.len() > 0,
    ensures
        begins(join_of(parts, sep), parts[0]),
    decreases parts.len(),
{
    let p = parts[0];
    if parts.len() == 1 {
        assert(p.take(p.len() as int) =~= p);
    } else {
        lemma_join_begins(parts.drop_last(), sep);
        let front = join_of(parts.drop_last(), sep);
        assert((front + sep + parts.last()).take(p.len() as int) =~= front.take(p.len() as int));
    }
}

/// Telling the model of the run a second time replaces what it was told before. The
/// first block holds no other block.
pub proof fn law_context_is_replaced(messages: Seq<JsonView>, first: Seq<char>, second: Seq<char>)
    requires
        begins(first, "WORKSPACE CONTEXT"@),
        begins(second, "WORKSPACE CONTEXT"@),
        !contains_of(first, "\n\nWORKSPACE CONTEXT"@),
    ensures
        with_context(with_context(messages, first), second) == with_context(messages, second),
{
    lemma_block_place(messages);
    lemma_mark_is_text(first);
    lemma_mark_is_text(second);
    let i = block_place(messages);
    let once = with_context(messages, first);
    if i >= 0 {
        let m = messages[i];
        let n = message_with_block(m, first);
        lemma_message_replaced(m, first, second);
        lemma_place_stays(messages, n);
        assert(once[i] == n);
        assert(with_context(once, second) =~= with_context(messages, second));
    } else {
        let n = message("user"@, JsonView::Str(first));
        lemma_message_reads(n, first);
        assert(once.last() == n);
        assert(block_place(once) == once.len() - 1);
        lemma_text_replaced_when_bare(first, second);
        let e = n->Object_0;
        assert(crate::ordered::put(e, "content"@, JsonView::Str(second)) =~= seq![
            ("content"@, JsonView::Str(second)),
            ("role"@, JsonView::Str("user"@)),
        ]);
        assert(with_context(once, second) =~= with_context(messages, second));
    }
}

/// A message of the user says what it says.
proof fn lemma_message_reads(n: JsonView, s: Seq<char>)
    requires
        n == message("user"@, JsonView::Str(s)),
    ensures
        takes_block(n),
        n.get("content"@) == Some(JsonView::Str(s)),
{
    reveal_strlit("content");
    reveal_strlit("role");
    assert("content"@.len() == 7 && "role"@.len() == 4);
    let e = n->Object_0;
    assert(e[0].0 == "content"@);
    assert(e.skip(1)[0] == ("role"@, JsonView::Str("user"@)));
    assert(lookup(e.skip(1), "role"@) == Some(JsonView::Str("user"@)));
    assert(lookup(e, "role"@) == lookup(e.skip(1), "role"@));
}

/// A block begins and ends a text of its own: no white space stands before it.
proof fn lemma_mark_is_text(b: Seq<char>)
    requires
        begins(b, "WORKSPACE CONTEXT"@),
    ensures
        b.len() > 0,
        trim_start_of(b) == b,
{
    reveal_strlit("WORKSPACE CONTEXT");
    assert(b[0] == "WORKSPACE CONTEXT"@[0]) by {
        assert(b.take("WORKSPACE CONTEXT"@.len() as int)[0] == "WORKSPACE CONTEXT"@[0]);
    }
}

/// Where a text is nothing but a block, the next block takes its place.
proof fn lemma_text_replaced_when_bare(first: Seq<char>, second: Seq<char>)
    requires
        begins(first, "WORKSPACE CONTEXT"@),
        begins(second, "WORKSPACE CONTEXT"@),
        !contains_of(first, "\n\nWORKSPACE CONTEXT"@),
    ensures
        text_with_block(first, second) == second,
{
    lemma_mark_is_text(second);
    let gap = "\n\n"@;
    reveal_strlit("\n\n");
    lemma_gap_is_space();
    assert(Seq::<char>::empty() + gap =~= gap);
    crate::text::lemma_trim_start_add(gap, second);
}

/// The gap before a block is white space.
proof fn lemma_gap_is_space()
    ensures
        trim_start_of("\n\n"@) == Seq::<char>::empty(),
{
    reveal_strlit("\n\n");
    let gap = "\n\n"@;
    assert(gap.len() == 2 && gap[0] == '\n' && gap[1] == '\n');
    assert(trim_start_of(gap) == trim_start_of(gap.skip(1)));
    assert(gap.skip(1)[0] == '\n');
    assert(gap.skip(1).skip(1) =~= Seq::empty());
    assert(trim_start_of(gap.skip(1)) == trim_start_of(gap.skip(1).skip(1)));
}

/// In a text, a block takes the place of the one before.
proof fn lemma_text_replaced(c: Seq<char>, first: Seq<char>, second: Seq<char>)
    requires
        begins(first, "WORKSPACE CONTEXT"@),
        begins(second, "WORKSPACE CONTEXT"@),
        !contains_of(first, "\n\nWORKSPACE CONTEXT"@),
    ensures
        text_with_block(text_with_block(c, first), second) == text_with_block(c, second),
{
    let tag = "\n\nWORKSPACE CONTEXT"@;
    let mark = "WORKSPACE CONTEXT"@;
    let gap = "\n\n"@;
    reveal_strlit("\n\nWORKSPACE CONTEXT");
    reveal_strlit("WORKSPACE CONTEXT");
    reveal_strlit("\n\n");
    assert(tag =~= gap + mark);
    let base = before_block(c);
    let kept = trim_start_of(base);
    lemma_mark_is_text(first);
    lemma_mark_is_text(second);
    lemma_gap_is_space();
    assert(base + gap + first =~= base + (gap + first));
    assert(base + gap + second =~= base + (gap + second));
    crate::text::lemma_trim_start_add(base, gap + first);
    crate::text::lemma_trim_start_add(base, gap + second);
    crate::text::lemma_trim_start_add(gap, first);
    crate::text::lemma_trim_start_add(gap, second);
    crate::text::lemma_trim_start_suffix(base);
    if kept.len() == 0 {
        lemma_text_replaced_when_bare(first, second);
    } else {
        let once = kept + (gap + first);
        let n = kept.len() as int;
        lemma_base_has_no_tag(c);
        // The block stands behind what was kept.
        assert(once.subrange(n, n + tag.len()) =~= tag) by {
            assert(first.take(17) == mark);
            assert forall|k: int| 0 <= k < 17 implies first[k] == mark[k] by {
                assert(first.take(17)[k] == mark[k]);
            }
        }
        // No other block stands before it.
        assert forall|j: int| 0 <= j < n implies !#[trigger] occurs_at(once, tag, j) by {
            if occurs_at(once, tag, j) {
                let t = once.subrange(j, j + tag.len());
                assert(t[0] == once[j] && t[1] == once[j + 1] && t[2] == once[j + 2]);
                if j + tag.len() <= n {
                    let shift = base.len() - n;
                    assert(base.subrange(j + shift, j + shift + tag.len()) =~= tag) by {
                        assert forall|k: int| 0 <= k < tag.len() implies base[j + shift + k] == tag[k] by {
                            assert(t[k] == once[j + k]);
                            assert(once[j + k] == kept[j + k]);
                            assert(kept[j + k] == base[shift + (j + k)]);
                        }
                    }
                    assert(occurs_at(base, tag, j + shift));
                } else {
                    let k = n - j;
                    assert(1 <= k < tag.len());
                    assert(t[k] == once[n] && once[n] == '\n');
                    assert(tag[k] == '\n');
                    assert(k == 1) by {
                        assert forall|q: int| 2 <= q < tag.len() implies tag[q] != '\n' by {}
                    }
                    assert(once[n + 1] == '\n');
                    assert(t[2] == once[n + 1]);
                }
            }
        }
        lemma_find_at(once, tag, n);
        assert(once.take(n) =~= kept);
        assert(before_block(once) == kept);
        crate::text::lemma_trim_start_add(kept, gap + second);
        assert(kept + gap + second =~= kept + (gap + second));
    }
}

/// What stands before the block holds no block.
proof fn lemma_base_has_no_tag(c: Seq<char>)
    ensures
        forall|j: int| 0 <= j ==> !#[trigger] occurs_at(before_block(c), "\n\nWORKSPACE CONTEXT"@, j),
{
    let tag = "\n\nWORKSPACE CONTEXT"@;
    reveal_strlit("\n\nWORKSPACE CONTEXT");
    lemma_find(c, tag);
    let base = before_block(c);
    assert forall|j: int| 0 <= j implies !#[trigger] occurs_at(base, tag, j) by {
        if occurs_at(base, tag, j) {
            assert(c.subrange(j, j + tag.len()) =~= base.subrange(j, j + tag.len()));
            assert(occurs_at(c, tag, j));
        }
    }
}

/// In a message, a block takes the place of the one before; the message can still
/// take one.
proof fn lemma_message_replaced(m: JsonView, first: Seq<char>, second: Seq<char>)
    requires
        takes_block(m),
        begins(first, "WORKSPACE CONTEXT"@),
        begins(second, "WORKSPACE CONTEXT"@),
        !contains_of(first, "\n\nWORKSPACE CONTEXT"@),
    ensures
        takes_block(message_with_block(m, first)),
        message_with_block(message_with_block(m, first), second) == message_with_block(m, second),
{
    reveal_strlit("content");
    reveal_strlit("role");
    assert("content"@.len() == 7 && "role"@.len() == 4);
    let e = m->Object_0;
    match m.get("content"@) {
        Some(JsonView::Str(c)) => {
            let a = JsonView::Str(text_with_block(c, first));
            let b = JsonView::Str(text_with_block(c, second));
            crate::ordered::law_put_then_lookup(e, "content"@, a, "role"@);
            crate::ordered::law_put_again(e, "content"@, a, b);
            lemma_text_replaced(c, first, second);
        },
        Some(JsonView::Array(blocks)) => {
            let kept = without_context(blocks);
            let a = JsonView::Array(kept.push(text_block(first)));
            let b = JsonView::Array(kept.push(text_block(second)));
            crate::ordered::law_put_then_lookup(e, "content"@, a, "role"@);
            crate::ordered::law_put_again(e, "content"@, a, b);
            lemma_block_is_context(first);
            lemma_without_is_stable(blocks);
            let once = kept.push(text_block(first));
            assert(once.drop_last() =~= kept);
            assert(without_context(once) == kept);
        },
        _ => {},
    }
}

/// A block that tells of the run is known as one.
proof fn lemma_block_is_context(b: Seq<char>)
    requires
        begins(b, "WORKSPACE CONTEXT"@),
    ensures
        is_context(text_block(b)),
{
    reveal_strlit("text");
    reveal_strlit("type");
    let e = text_block(b)->Object_0;
    assert("text"@[1] == 'e' && "type"@[1] == 'y');
    assert(e[0].0 == "text"@);
    assert(e.skip(1)[0] == ("type"@, JsonView::Str("text"@)));
    assert(lookup(e.skip(1), "type"@) == Some(JsonView::Str("text"@)));
    assert(lookup(e, "type"@) == lookup(e.skip(1), "type"@));
}

/// Blocks that do not tell of the run all stay.
proof fn lemma_without_is_stable(blocks: Seq<JsonView>)
    ensures
        without_context(without_context(blocks)) == without_context(blocks),
    decreases blocks.len(),
{
    if blocks.len() > 0 {
        let front = blocks.drop_last();
        lemma_without_is_stable(front);
        if !is_context(blocks.last()) {
            let kept = without_context(front).push(blocks.last());
            assert(kept.drop_last() =~= without_context(front));
        }
    }
}

/// A message that can take the block keeps its place when it has taken it.
proof fn lemma_place_stays(messages: Seq<JsonView>, n: JsonView)
    requires
        block_place(messages) >= 0,
        takes_block(n),
    ensures
        block_place(messages.update(block_place(messages), n)) == block_place(messages),
    decreases messages.len(),
{
    lemma_block_place(messages);
    let i = block_place(messages);
    let after = messages.update(i, n);
    if messages.len() > 0 && !takes_block(messages.last()) {
        lemma_place_stays(messages.drop_last(), n);
        assert(after.drop_last() =~= messages.drop_last().update(i, n));
        assert(after.last() == messages.last());
    }
}

/// The block goes on the last message of the user that is of text or of blocks; where
/// there is none, it is a message of its own behind all others.
pub proof fn law_block_goes_on_last_user_message(messages: Seq<JsonView>, block: Seq<char>, i: int)
    requires
        0 <= i <= messages.len(),
        forall|j: int|
            i <= j < messages.len() ==> !((#[trigger] messages[j]).get_str("role"@) == Some("user"@) && (messages[j].get(
                "content"@,
            ) matches Some(c) && (c is Str || c is Array))),
    ensures
        i > 0 && messages[i - 1].get_str("role"@) == Some("user"@) && (messages[i - 1].get("content"@) matches Some(c)
            && (c is Str || c is Array)) ==> with_context(messages, block) == messages.update(
            i - 1,
            message_with_block(messages[i - 1], block),
        ),
        i == 0 ==> with_context(messages, block) == messages.push(message("user"@, JsonView::Str(block))),
    decreases messages.len(),
{
    if i == messages.len() {
        if i > 0 && takes_block(messages[i - 1]) {
            assert(messages.last() == messages[i - 1]);
        }
    } else {
        let front = messages.drop_last();
        assert(!takes_block(messages.last())) by {
            assert(messages[messages.len() - 1] == messages.last());
        }
        assert forall|j: int| i <= j < front.len() implies !((#[trigger] front[j]).get_str("role"@) == Some("user"@) && (
        front[j].get("content"@) matches Some(c) && (c is Str || c is Array))) by {
            assert(front[j] == messages[j]);
        }
        law_block_goes_on_last_user_message(front, block, i);
        lemma_block_place(front);
        if i > 0 && takes_block(messages[i - 1]) {
            assert(front[i - 1] == messages[i - 1]);
            lemma_place_is(front, i - 1);
        }
        if i == 0 {
            lemma_no_place(front);
        }
    }
}

/// The place of the block is that of the last message that can take it.
proof fn lemma_place_is(messages: Seq<JsonView>, i: int)
    requires
        0 <= i < messages.len(),
        takes_block(messages[i]),
        forall|j: int| i < j < messages.len() ==> !takes_block(#[trigger] messages[j]),
    ensures
        block_place(messages) == i,
    decreases messages.len(),
{
    if i < messages.len() - 1 {
        assert(!takes_block(messages[messages.len() - 1]));
        assert forall|j: int| i < j < messages.len() - 1 implies !takes_block(#[trigger] messages.drop_last()[j]) by {
            assert(messages.drop_last()[j] == messages[j]);
        }
        lemma_place_is(messages.drop_last(), i);
    }
}

/// Where no message can take the block, it has no place among them.
proof fn lemma_no_place(messages: Seq<JsonView>)
    requires
        forall|j: int| 0 <= j < messages.len() ==> !takes_block(#[trigger] messages[j]),
    ensures
        block_place(messages) == -1,
    decreases messages.len(),
{
    if messages.len() > 0 {
        assert(!takes_block(messages[messages.len() - 1]));
        assert forall|j: int| 0 <= j < messages.len() - 1 implies !takes_block(#[trigger] messages.drop_last()[j]) by {
            assert(messages.drop_last()[j] == messages[j]);
        }
        lemma_no_place(messages.drop_last());
    }
}

/// Blocks that tell of the run leave, all of them, and no others do.
pub proof fn law_old_context_leaves(blocks: Seq<JsonView>)
    ensures
        without_context(blocks) == blocks.filter(
            |b: JsonView|
                !(b.get_str("type"@) == Some("text"@) && (b.get_str("text"@) matches Some(t) && begins(
                    t,
                    "WORKSPACE CONTEXT"@,
                ))),
        ),
    decreases blocks.len(),
{
    reveal(Seq::filter);
    if blocks.len() > 0 {
        law_old_context_leaves(blocks.drop_last());
    }
}

/// A message that takes the block keeps what it says: a text has the block behind it, a
/// list of blocks has it as its last block, and everything else of the message stays.
pub proof fn law_block_is_added_to_message(m: JsonView, block: Seq<char>, key: Seq<char>)
    requires
        m is Object,
    ensures
        m.get("content"@) matches Some(JsonView::Str(c)) ==> message_with_block(m, block).get("content"@) == Some(
            JsonView::Str(text_with_block(c, block)),
        ),
        m.get("content"@) matches Some(JsonView::Array(a)) ==> (message_with_block(m, block).get("content"@) matches Some(
            JsonView::Array(b),
        ) && b.drop_last() == without_context(a) && b.len() == without_context(a).len() + 1 && b.last().get_str(
            "text"@,
        ) == Some(block) && b.last().get_str("type"@) == Some("text"@)),
        key != "content"@ ==> message_with_block(m, block).get(key) == m.get(key),
{
    let e = m->Object_0;
    match m.get("content"@) {
        Some(JsonView::Str(c)) => {
            crate::ordered::law_put_then_lookup(e, "content"@, JsonView::Str(text_with_block(c, block)), key);
        },
        Some(JsonView::Array(a)) => {
            let b = without_context(a).push(text_block(block));
            crate::ordered::law_put_then_lookup(e, "content"@, JsonView::Array(b), key);
            assert(b.drop_last() =~= without_context(a));
            reveal_strlit("text");
            reveal_strlit("type");
            let t = text_block(block)->Object_0;
            assert("text"@[1] == 'e' && "type"@[1] == 'y');
            assert(t[0].0 == "text"@);
            assert(t.skip(1)[0] == ("type"@, JsonView::Str("text"@)));
            assert(lookup(t.skip(1), "type"@) == Some(JsonView::Str("text"@)));
            assert(lookup(t, "type"@) == lookup(t.skip(1), "type"@));
        },
        _ => {},
    }
}

/// A text that holds no block has the block behind it; one that holds a block has the
/// new one in its place, and nothing of what stood before it changes.
pub proof fn law_block_stands_behind_text(said: Seq<char>, old_block: Seq<char>, block: Seq<char>)
    requires
        said.len() > 0,
        !is_space(said[0]),
        !begins(said, "WORKSPACE CONTEXT"@),
        forall|j: int| !#[trigger] occurs_at(said, "\n\nWORKSPACE CONTEXT"@, j),
        begins(old_block, "WORKSPACE CONTEXT"@),
        !contains_of(old_block, "\n\nWORKSPACE CONTEXT"@),
        begins(block, "WORKSPACE CONTEXT"@),
    ensures
        text_with_block(said, block) == said + "\n\n"@ + block,
        text_with_block(said + "\n\n"@ + old_block, block) == said + "\n\n"@ + block,
        text_with_block(old_block, block) == block,
{
    lemma_find(said, "\n\nWORKSPACE CONTEXT"@);
    assert((said + "\n\n"@ + block)[0] == said[0]);
    assert((said + "\n\n"@ + old_block)[0] == said[0]);
    assert(trim_start_of(said + "\n\n"@ + block) == said + "\n\n"@ + block);
    assert(trim_start_of(said + "\n\n"@ + old_block) == said + "\n\n"@ + old_block);
    lemma_text_replaced(said, old_block, block);
    lemma_text_replaced_when_bare(old_block, block);
}

/// The model is told the iteration and the calls so far with their limits, then the
/// last three errors and the last ten calls, each on a line of its own, in order.
pub proof fn law_block_tells_of_the_run(
    calls_total: nat,
    errors: Seq<Seq<char>>,
    recent: Seq<RecentView>,
    iteration: nat,
    max_iterations: nat,
    max_calls: nat,
    lines: Seq<Seq<char>>,
)
    requires
        ({
            let e = if errors.len() < 3 { errors.len() as int } else { 3 };
            let r = if recent.len() < 10 { recent.len() as int } else { 10 };
            let at = 3 + (if e > 0 { e + 1 } else { 0 });
            &&& lines.len() == at + (if r > 0 { r + 1 } else { 0 })
            &&& lines[0] == "WORKSPACE CONTEXT"@
            &&& lines[1] == "- iteration: "@ + decimal(iteration) + "/"@ + decimal(max_iterations)
            &&& lines[2] == "- tool_calls_total: "@ + decimal(calls_total) + "/"@ + decimal(max_calls)
            &&& e > 0 ==> lines[3] == "- recent_errors:"@
            &&& forall|k: int| 4 <= k < at ==> #[trigger] lines[k] == "  - "@ + errors[errors.len() - e + k - 4]
            &&& r > 0 ==> lines[at] == "- recent_tool_results:"@
            &&& forall|k: int|
                at < k < lines.len() ==> #[trigger] lines[k] == recent_line(recent[recent.len() - r + k - at - 1])
        }),
    ensures
        context_block(calls_total, errors, recent, iteration, max_iterations, max_calls) == trim_of(
            join_of(lines, "\n"@),
        ),
{
    let e = if errors.len() < 3 { errors.len() as int } else { 3 };
    let r = if recent.len() < 10 { recent.len() as int } else { 10 };
    let at = 3 + (if e > 0 { e + 1 } else { 0 });
    let head = seq![
        "WORKSPACE CONTEXT"@,
        "- iteration: "@ + decimal(iteration) + "/"@ + decimal(max_iterations),
        "- tool_calls_total: "@ + decimal(calls_total) + "/"@ + decimal(max_calls),
    ];
    let all = head + error_lines(errors) + recent_lines(recent);
    assert(error_lines(errors).len() == at - 3);
    assert(all.len() == lines.len());
    assert forall|k: int| 0 <= k < all.len() implies all[k] == lines[k] by {
        if k == 3 && e > 0 {
        } else if 4 <= k < at {
            assert(last_n_of(errors, 3)[k - 4] == errors[errors.len() - e + k - 4]);
        } else if k > at {
            assert(last_n_of(recent, 10)[k - at - 1] == recent[recent.len() - r + k - at - 1]);
        }
    }
    assert(all =~= lines);
}

/// The line of a call names the tool and its arguments, and gives the summary on one
/// line, cut behind two hundred and forty characters.
pub proof fn law_line_of_a_call(e: RecentView)
    ensures
        ({
            let flat = replace_of(e.summary, "\n"@, " | "@);
            let head = "  - "@ + e.tool + "("@ + e.args_preview + "): "@;
            &&& flat.len() <= 240 ==> recent_line(e) == head + flat
            &&& flat.len() > 240 ==> recent_line(e) == head + (flat.take(240) + "…"@)
        }),
{
}

/// A hint is added to what the last message says, where it is a text, or else is a
/// message of its own; no other message changes, and none leaves.
pub proof fn law_hint_is_added(messages: Seq<JsonView>, hint: Seq<char>, i: int)
    ensures
        0 <= i < messages.len() - 1 ==> with_hint(messages, hint)[i] == messages[i],
        messages.len() > 0 && messages.last().get_str("content"@) is Some ==> {
            &&& with_hint(messages, hint).len() == messages.len()
            &&& with_hint(messages, hint).last().get_str("content"@) == Some(
                messages.last().get_str("content"@)->Some_0 + "\n\n"@ + hint,
            )
            &&& with_hint(messages, hint).last().get("role"@) == messages.last().get("role"@)
        },
        messages.len() == 0 || messages.last().get_str("content"@) is None ==> {
            &&& with_hint(messages, hint).drop_last() == messages
            &&& with_hint(messages, hint).len() == messages.len() + 1
            &&& with_hint(messages, hint).last().get_str("content"@) == Some(hint)
            &&& with_hint(messages, hint).last().get_str("role"@) == Some("user"@)
        },
{
    reveal_strlit("content");
    reveal_strlit("role");
    assert("content"@.len() == 7 && "role"@.len() == 4);
    if messages.len() > 0 && messages.last().get_str("content"@) is Some {
        let m = messages.last();
        let text = JsonView::Str(m.get_str("content"@)->Some_0 + "\n\n"@ + hint);
        crate::ordered::law_put_then_lookup(m->Object_0, "content"@, text, "role"@);
    } else {
        lemma_message_reads(message("user"@, JsonView::Str(hint)), hint);
        assert(with_hint(messages, hint).drop_last() =~= messages);
    }
}

} // verus!
