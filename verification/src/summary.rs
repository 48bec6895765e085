//! Tool outputs and arguments put in short.
use vstd::prelude::*;

use crate::json::{Json, JsonView};
use crate::json_codec::{compact, compact_text};
use crate::numbers::{decimal, decimal_text, integer64_of, parse_integer, signed_decimal, signed_decimal_text};
use crate::text::{begins, clip, is_space, is_white, first_n, first_n_of, join, join_of, last_n, last_n_of, lemma_texts_push, lemma_trim_end_keeps, lines, lines_of, replace, replace_of, same, starts_with, strip_prefix, texts, trim, trim_of, trim_start, trim_start_of};

verus! {

// ---------------------------------------------------------------------------
// Specifications
// ---------------------------------------------------------------------------

/// The output reports an error.
pub open spec fn is_error(output: Seq<char>) -> bool {
    begins(trim_start_of(output), "Error:"@)
}

/// What an output that reports an error says behind the word.
pub open spec fn error_text(output: Seq<char>) -> Seq<char> {
    trim_of(trim_start_of(output).skip("Error:"@.len() as int))
}

/// The first `n` characters of `s` with an ellipsis, or all of it where it is no
/// longer.
pub open spec fn ellipsis_of(s: Seq<char>, n: nat) -> Seq<char> {
    if s.len() > n {
        s.take(n as int) + "…"@
    } else {
        s
    }
}

/// The first of some lines, or the empty text.
pub open spec fn first_line_of(s: Seq<char>) -> Seq<char> {
    if lines_of(s).len() > 0 {
        lines_of(s)[0]
    } else {
        Seq::empty()
    }
}

/// The exit code that the first line of a command's output gives.
pub open spec fn exit_code_of(output: Seq<char>) -> Option<int> {
    let first = trim_of(first_line_of(output));
    if begins(first, "exit_code:"@) {
        integer64_of(trim_of(first.skip("exit_code:"@.len() as int)))
    } else {
        None
    }
}

/// The line says something that a command printed.
pub open spec fn is_printed(line: Seq<char>) -> bool {
    line.len() > 0 && line != "STDOUT:"@ && line != "STDERR:"@
}

/// The lines that say something that a command printed.
pub open spec fn printed_of(lines: Seq<Seq<char>>) -> Seq<Seq<char>>
    decreases lines.len(),
{
    if lines.len() == 0 {
        Seq::empty()
    } else if is_printed(lines.last()) {
        printed_of(lines.drop_last()).push(lines.last())
    } else {
        printed_of(lines.drop_last())
    }
}

/// The first twelve lines; where there are more than twice as many, a mark and the
/// last twelve too.
pub open spec fn ends_of(lines: Seq<Seq<char>>) -> Seq<Seq<char>> {
    if lines.len() > 24 {
        first_n_of(lines, 12).push("…(snip)…"@) + last_n_of(lines, 12)
    } else {
        first_n_of(lines, 12)
    }
}

/// The text, or `other` where there is nothing but white space in it.
pub open spec fn trimmed_or(s: Seq<char>, other: Seq<char>) -> Seq<char> {
    if trim_of(s).len() == 0 {
        other
    } else {
        trim_of(s)
    }
}

/// The output of a command in short.
pub open spec fn command_summary(output: Seq<char>) -> Seq<char> {
    let all = lines_of(output);
    let rest = if all.len() > 0 { all.skip(1) } else { all };
    let body = trimmed_or(join_of(ends_of(printed_of(rest)), "\n"@), "(no output)"@);
    let code = match exit_code_of(output) {
        Some(c) => signed_decimal(c),
        None => "?"@,
    };
    "bash exit_code="@ + code + "\n"@ + body
}

/// A long output in short: its first lines, and its last ones where more than twice
/// as many are left out.
pub open spec fn long_summary(output: Seq<char>) -> Seq<char> {
    let all = lines_of(output);
    let head = join_of(first_n_of(all, 12), "\n"@);
    if all.len() > 24 {
        trim_of(
            head + "\n…[truncated "@ + decimal((all.len() - 24) as nat) + " lines]…\n"@ + join_of(
                last_n_of(all, 12),
                "\n"@,
            ),
        )
    } else {
        trim_of(head)
    }
}

/// The output of the tool `name` in short.
pub open spec fn summary_of(name: Seq<char>, output: Seq<char>) -> Seq<char> {
    let s = trim_of(output);
    if is_error(s) {
        "Error: "@ + ellipsis_of(error_text(s), 400)
    } else if name == "bash"@ {
        command_summary(output)
    } else if s.len() == 0 {
        "(empty)"@
    } else if lines_of(output).len() <= 24 && output.len() <= 1500 {
        s
    } else {
        long_summary(output)
    }
}

/// The arguments of a call of the tool `name` in short.
pub open spec fn args_preview_of(name: Seq<char>, args: JsonView) -> Seq<char> {
    if name == "bash"@ {
        ellipsis_of(trim_of(replace_of(args.text_at("command"@), "\n"@, " "@)), 60)
    } else if name == "read"@ || name == "write"@ {
        args.text_at("path"@)
    } else if name == "edit"@ {
        let n = match args.get_array("edits"@) {
            Some(a) => a.len(),
            None => 0,
        };
        args.text_at("path"@) + "  ("@ + decimal(n) + " edit"@ + (if n != 1 { "s"@ } else { ""@ }) + ")"@
    } else {
        ellipsis_of(compact(args), 60)
    }
}

/// The first line of a tool's output in short.
pub open spec fn result_hint_of(name: Seq<char>, output: Seq<char>) -> Seq<char> {
    let summary = summary_of(name, output);
    let first = if lines_of(summary).len() > 0 { lines_of(summary)[0] } else { "(empty)"@ };
    ellipsis_of(trim_of(first), 70)
}

// ---------------------------------------------------------------------------
// Functions
// ---------------------------------------------------------------------------

/// Whether an output reports an error.
pub fn is_error_output(output: &str) -> (r: bool)
    ensures
        r == is_error(output@),
{
    starts_with(trim_start(output), "Error:")
}

/// What an output that reports an error says behind the word.
pub fn error_message(output: &str) -> (r: String)
    requires
        is_error(output@),
    ensures
        r@ == error_text(output@),
{
    let s = trim_start(output);
    match strip_prefix(s, "Error:") {
        Some(rest) => String::from_str(trim(rest)),
        None => String::new(),
    }
}

/// The first `n` characters of `s` with an ellipsis, or all of it where it is no
/// longer.
pub fn truncate_with_ellipsis(s: &str, n: usize) -> (r: String)
    ensures
        r@ == ellipsis_of(s@, n as nat),
{
    let mut out = clip(s, n);
    if s.unicode_len() > n {
        out.append("…");
    }
    out
}

/// The exit code that the first line of a command's output gives.
pub fn parse_bash_exit_code(output: &str) -> (r: Option<i64>)
    ensures
        match r {
            Some(c) => exit_code_of(output@) == Some(c as int),
            None => exit_code_of(output@) is None,
        },
{
    let line = first_line(output);
    match strip_prefix(trim(line.as_str()), "exit_code:") {
        Some(rest) => parse_integer(trim(rest)),
        None => None,
    }
}

/// The first of some lines, or the empty text.
pub fn first_line(s: &str) -> (r: String)
    ensures
        r@ == first_line_of(s@),
{
    let all = lines(s);
    if all.len() > 0 {
        assert(texts(all@)[0] == all@[0]@);
        all[0].clone()
    } else {
        assert(texts(all@).len() == 0);
        String::new()
    }
}

/// The lines from `from` on that say something that a command printed.
fn printed(all: &Vec<String>, from: usize) -> (r: Vec<String>)
    requires
        from <= all@.len(),
    ensures
        texts(r@) == printed_of(texts(all@).skip(from as int)),
{
    let ghost rest = texts(all@).skip(from as int);
    let mut out: Vec<String> = Vec::new();
    assert(texts(out@) =~= printed_of(rest.take(0)));
    for i in from..all.len()
        invariant
            from <= i <= all@.len(),
            rest == texts(all@).skip(from as int),
            texts(out@) == printed_of(rest.take(i - from)),
    {
        proof {
            assert(rest.take(i + 1 - from).drop_last() =~= rest.take(i - from));
            assert(rest.take(i + 1 - from).last() == all@[i as int]@);
        }
        let line = all[i].as_str();
        if !line.is_empty() && !same(line, "STDOUT:") && !same(line, "STDERR:") {
            let new = String::from_str(line);
            proof { lemma_texts_push(out@, new); }
            out.push(new);
        }
    }
    assert(rest.take(all@.len() - from) =~= rest);
    out
}

/// Adds the texts of a list to another.
fn push_all(out: &mut Vec<String>, more: &Vec<String>)
    ensures
        texts(final(out)@) == texts(old(out)@) + texts(more@),
{
    let ghost start = texts(out@);
    assert(start + texts(more@).take(0) =~= start);
    for i in 0..more.len()
        invariant
            texts(out@) == start + texts(more@).take(i as int),
    {
        let new = more[i].clone();
        proof {
            lemma_texts_push(out@, new);
            assert(texts(more@).take(i + 1) =~= texts(more@).take(i as int).push(new@));
        }
        out.push(new);
        assert(texts(out@) =~= start + texts(more@).take(i + 1));
    }
    assert(texts(more@).take(more@.len() as int) =~= texts(more@));
}

/// The first twelve lines; where there are more than twice as many, a mark and the
/// last twelve too.
fn ends(all: &Vec<String>) -> (r: Vec<String>)
    ensures
        texts(r@) == ends_of(texts(all@)),
{
    let mut out = first_n(all, 12);
    if all.len() > 24 {
        let mark = String::from_str("…(snip)…");
        proof { lemma_texts_push(out@, mark); }
        out.push(mark);
        push_all(&mut out, &last_n(all, 12));
    }
    out
}

/// The output of a command in short.
fn summarize_command(output: &str) -> (r: String)
    ensures
        r@ == command_summary(output@),
{
    let all = lines(output);
    let start: usize = if all.len() > 0 { 1 } else { 0 };
    let lines = printed(&all, start);
    assert(texts(all@).skip(0) =~= texts(all@));
    let body = join(&ends(&lines), "\n");
    let mut out = String::from_str("bash exit_code=");
    match parse_bash_exit_code(output) {
        Some(c) => {
            out.append(signed_decimal_text(c).as_str());
        },
        None => {
            out.append("?");
        },
    }
    out.append("\n");
    let body = trim(body.as_str());
    if body.is_empty() {
        out.append("(no output)");
    } else {
        out.append(body);
    }
    out
}

/// The output of the tool `name` in short.
pub fn summarize_tool_output(name: &str, output: &str) -> (r: String)
    ensures
        r@ == summary_of(name@, output@),
{
    let s = trim(output);
    if is_error_output(s) {
        let mut out = String::from_str("Error: ");
        out.append(truncate_with_ellipsis(error_message(s).as_str(), 400).as_str());
        return out;
    }
    if same(name, "bash") {
        return summarize_command(output);
    }
    if s.is_empty() {
        return String::from_str("(empty)");
    }
    let all = lines(output);
    assert(texts(all@).len() == all@.len());
    let n = all.len();
    if n <= 24 && output.unicode_len() <= 1500 {
        return String::from_str(s);
    }
    let mut out = join(&first_n(&all, 12), "\n");
    if n > 24 {
        out.append("\n…[truncated ");
        out.append(decimal_text((n - 24) as u64).as_str());
        out.append(" lines]…\n");
        out.append(join(&last_n(&all, 12), "\n").as_str());
    }
    String::from_str(trim(out.as_str()))
}

/// The arguments of a call of the tool `name` in short.
pub fn format_args(name: &str, args: &Json) -> (r: String)
    ensures
        r@ == args_preview_of(name@, args@),
{
    if same(name, "bash") {
        let command = replace(args.text_at("command").as_str(), "\n", " ");
        truncate_with_ellipsis(trim(command.as_str()), 60)
    } else if same(name, "read") || same(name, "write") {
        args.text_at("path")
    } else if same(name, "edit") {
        let n: usize = match args.get_array("edits") {
            Some(a) => {
                assert(crate::json::list_view(a@).len() == a@.len());
                a.len()
            },
            None => 0,
        };
        let mut out = args.text_at("path");
        out.append("  (");
        out.append(decimal_text(n as u64).as_str());
        out.append(" edit");
        out.append(if n != 1 { "s" } else { "" });
        out.append(")");
        out
    } else {
        truncate_with_ellipsis(compact_text(args).as_str(), 60)
    }
}

/// The first line of a tool's output in short.
pub fn diagnostic_result_hint(name: &str, output: &str) -> (r: String)
    ensures
        r@ == result_hint_of(name@, output@),
{
    let summary = summarize_tool_output(name, output);
    let all = lines(summary.as_str());
    assert(texts(all@).len() == all@.len());
    let first = if all.len() > 0 {
        assert(texts(all@)[0] == all@[0]@);
        all[0].clone()
    } else {
        String::from_str("(empty)")
    };
    truncate_with_ellipsis(trim(first.as_str()), 70)
}

// ---------------------------------------------------------------------------
// Laws
// ---------------------------------------------------------------------------

/// The summary of an output that reports an error reports an error too, whatever the
/// tool.
pub proof fn law_error_stays_error(name: Seq<char>, output: Seq<char>)
    requires
        is_error(output),
    ensures
        is_error(summary_of(name, output)),
        begins(summary_of(name, output), "Error: "@),
{
    reveal_strlit("Error:");
    reveal_strlit("Error: ");
    let t = trim_start_of(output);
    let s = trim_of(output);
    assert(t.take(6)[5] == t[5]);
    assert(t[5] == ':');
    assert(t.take(6)[0] == t[0]);
    assert(t[0] == 'E');
    lemma_trim_end_keeps(t, 5);
    assert(s.take(6) =~= t.take(6));
    assert(s.take(6)[0] == s[0]);
    assert(trim_start_of(s) == s);
    let r = summary_of(name, output);
    assert(r[0] == 'E');
    assert(trim_start_of(r) == r);
    assert(r.take(6) =~= "Error:"@);
    assert(r.take(7) =~= "Error: "@);
}

/// An output reports an error exactly where its first word, behind white space, says so.
pub proof fn law_error_is_said_first(gap: Seq<char>, text: Seq<char>)
    requires
        is_white(gap),
        text.len() > 0,
        !is_space(text[0]),
    ensures
        is_error(gap + text) == (text.len() >= 6 && text.take(6) == "Error:"@),
        !is_error(gap),
        begins(text, "Error:"@) ==> error_text(gap + text) == trim_of(text.skip(6)),
{
    reveal_strlit("Error:");
    crate::text::lemma_trim_start_white(gap, text);
    crate::text::lemma_trim_start_white(gap, Seq::empty());
    assert(gap + Seq::<char>::empty() =~= gap);
    assert("Error:"@.len() == 6);
}

/// A text is cut behind so many characters, and marked as cut; one that is no longer
/// stays as it is.
pub proof fn law_ellipsis_marks_what_is_cut(s: Seq<char>, n: nat)
    ensures
        s.len() <= n ==> ellipsis_of(s, n) == s,
        s.len() > n ==> ellipsis_of(s, n).drop_last() == s.take(n as int) && ellipsis_of(s, n).last() == '…',
{
    reveal_strlit("…");
    if s.len() > n {
        assert(ellipsis_of(s, n).drop_last() =~= s.take(n as int));
    }
}

/// All lines that a command printed count, in order, but for empty ones and the two
/// headings.
pub proof fn law_every_printed_line_counts(lines: Seq<Seq<char>>)
    ensures
        printed_of(lines) == lines.filter(|l: Seq<char>| l.len() > 0 && l != "STDOUT:"@ && l != "STDERR:"@),
    decreases lines.len(),
{
    reveal(Seq::filter);
    if lines.len() > 0 {
        law_every_printed_line_counts(lines.drop_last());
    }
}

/// Of many lines both ends are shown, with a mark between them; of fewer the beginning.
pub proof fn law_ends_are_shown(lines: Seq<Seq<char>>, i: int)
    ensures
        lines.len() <= 12 ==> ends_of(lines) == lines,
        12 <= lines.len() <= 24 ==> ends_of(lines) == lines.take(12),
        lines.len() > 24 ==> ends_of(lines).len() == 25 && ends_of(lines)[12] == "…(snip)…"@,
        lines.len() > 24 && 0 <= i < 12 ==> ends_of(lines)[i] == lines[i] && ends_of(lines)[13 + i]
            == lines[lines.len() - 12 + i],
{
    if lines.len() <= 12 {
        assert(ends_of(lines) =~= lines);
    } else if lines.len() <= 24 {
        assert(ends_of(lines) =~= lines.take(12));
    }
}

/// The exit code that a command's output gives is read from its first line.
pub proof fn law_exit_code_is_read(code: int, rest: Seq<char>)
    requires
        i64::MIN <= code <= i64::MAX,
    ensures
        exit_code_of("exit_code: "@ + signed_decimal(code) + "\n"@ + rest) == Some(code),
{
    let d = signed_decimal(code);
    reveal_strlit("exit_code: ");
    reveal_strlit("exit_code:");
    crate::numbers::law_signed_decimal_reads_back(code);
    lemma_signed_decimal_is_tight(code);
    let line = "exit_code: "@ + d;
    assert("exit_code: "@.len() == 11 && "exit_code:"@.len() == 10);
    assert forall|i: int| 0 <= i < line.len() implies line[i] != '\n' && line[i] != '\r' by {
        if i >= 11 {
            assert(line[i] == d[i - 11]);
        }
    }
    assert(!line.contains('\n'));
    assert(line.last() == d.last());
    crate::text::law_lines_are_read_in_order(line, rest);
    assert("exit_code: "@ + d + "\n"@ + rest == line + "\n"@ + rest);
    assert(first_line_of(line + "\n"@ + rest) == line);
    let none = Seq::<char>::empty();
    assert(none + line + none =~= line);
    crate::text::law_trim_takes_white_space(none, line, none);
    assert(line.take(10) =~= "exit_code:"@);
    let tail = line.skip(10);
    assert(tail =~= seq![' '] + d + none);
    assert(is_white(seq![' ']));
    crate::text::law_trim_takes_white_space(seq![' '], d, none);
}

/// A number is written without white space.
proof fn lemma_signed_decimal_is_tight(n: int)
    ensures
        signed_decimal(n).len() > 0,
        forall|i: int| 0 <= i < signed_decimal(n).len() ==> !is_space(#[trigger] signed_decimal(n)[i]),
{
    let d = signed_decimal(n);
    let m: nat = if n < 0 { (-n) as nat } else { n as nat };
    crate::numbers::lemma_decimal(m);
    let e = decimal(m);
    assert forall|i: int| 0 <= i < d.len() implies !is_space(#[trigger] d[i]) by {
        if n < 0 {
            if i > 0 {
                assert(d[i] == e[i - 1]);
                assert(crate::numbers::is_digit(e[i - 1]));
            }
        } else {
            assert(crate::numbers::is_digit(e[i]));
        }
    }
}

/// The summary of a command gives its exit code, or a question mark, and what it
/// printed behind its first line.
pub proof fn law_command_summary_says_both(output: Seq<char>, rest: Seq<Seq<char>>)
    requires
        !is_error(trim_of(output)),
        lines_of(output).len() > 0 ==> lines_of(output).skip(1) == rest,
        lines_of(output).len() == 0 ==> rest.len() == 0,
    ensures
        ({
            let body = join_of(ends_of(printed_of(rest)), "\n"@);
            let head = "bash exit_code="@ + (match exit_code_of(output) {
                Some(c) => signed_decimal(c),
                None => "?"@,
            }) + "\n"@;
            &&& trim_of(body).len() > 0 ==> summary_of("bash"@, output) == head + trim_of(body)
            &&& trim_of(body).len() == 0 ==> summary_of("bash"@, output) == head + "(no output)"@
        }),
{
    if lines_of(output).len() == 0 {
        assert(lines_of(output) =~= rest);
    }
}

/// A short output is shown as it is, without the white space round it; of a long one
/// both ends are shown, and how many lines were left out, or its beginning.
pub proof fn law_summary_shows_the_output(name: Seq<char>, output: Seq<char>)
    requires
        !is_error(trim_of(output)),
        name != "bash"@,
    ensures
        ({
            let all = lines_of(output);
            let s = summary_of(name, output);
            &&& trim_of(output).len() == 0 ==> s == "(empty)"@
            &&& trim_of(output).len() > 0 && all.len() <= 24 && output.len() <= 1500 ==> s == trim_of(output)
            &&& trim_of(output).len() > 0 && all.len() <= 12 && output.len() > 1500 ==> s == trim_of(
                join_of(all, "\n"@),
            )
            &&& trim_of(output).len() > 0 && 12 < all.len() <= 24 && output.len() > 1500 ==> s == trim_of(
                join_of(all.take(12), "\n"@),
            )
            &&& trim_of(output).len() > 0 && all.len() > 24 ==> s == trim_of(
                join_of(all.take(12), "\n"@) + "\n…[truncated "@ + decimal((all.len() - 24) as nat) + " lines]…\n"@
                    + join_of(all.skip(all.len() - 12), "\n"@),
            )
        }),
{
    let all = lines_of(output);
    if all.len() <= 12 {
        assert(first_n_of(all, 12) =~= all);
    }
}

/// The arguments of a call in short: the path, or the command, or the edits and their
/// count, or else all of them, cut behind sixty characters.
pub proof fn law_preview_tells_the_subject(name: Seq<char>, args: JsonView)
    ensures
        name == "read"@ || name == "write"@ ==> args_preview_of(name, args) == args.text_at("path"@),
        name == "edit"@ ==> args_preview_of(name, args) == args.text_at("path"@) + "  ("@ + (match args.get_array(
            "edits"@,
        ) {
            Some(a) => if a.len() == 1 {
                "1 edit"@
            } else {
                decimal(a.len()) + " edits"@
            },
            None => "0 edits"@,
        }) + ")"@,
        name == "bash"@ ==> ({
            let command = trim_of(replace_of(args.text_at("command"@), "\n"@, " "@));
            &&& command.len() <= 60 ==> args_preview_of(name, args) == command
            &&& command.len() > 60 ==> args_preview_of(name, args) == command.take(60) + "…"@
        }),
        name != "read"@ && name != "write"@ && name != "edit"@ && name != "bash"@ ==> {
            &&& compact(args).len() <= 60 ==> args_preview_of(name, args) == compact(args)
            &&& compact(args).len() > 60 ==> args_preview_of(name, args) == compact(args).take(60) + "…"@
        },
{
    reveal_strlit("read");
    reveal_strlit("write");
    reveal_strlit("edit");
    reveal_strlit("bash");
    reveal_strlit(" edit");
    reveal_strlit("s");
    reveal_strlit("");
    reveal_strlit("1 edit");
    reveal_strlit("0 edits");
    reveal_strlit(" edits");
    assert("read"@[0] == 'r' && "edit"@[0] == 'e' && "bash"@[0] == 'b' && "write"@[0] == 'w');
    if name == "edit"@ {
        let n = match args.get_array("edits"@) {
            Some(a) => a.len(),
            None => 0,
        };
        let p = args.text_at("path"@) + "  ("@;
        assert(decimal(0) =~= seq!['0']);
        assert(decimal(1) =~= seq!['1']);
        if n == 1 {
            assert(p + decimal(n) + " edit"@ + ""@ =~= p + "1 edit"@);
        } else if args.get_array("edits"@) is None {
            assert(p + decimal(n) + " edit"@ + "s"@ =~= p + "0 edits"@);
        } else {
            assert(p + decimal(n) + " edit"@ + "s"@ =~= p + (decimal(n) + " edits"@));
        }
    }
}

/// The hint is the first line of the summary, cut behind seventy characters.
pub proof fn law_hint_is_the_first_line(name: Seq<char>, output: Seq<char>)
    requires
        lines_of(summary_of(name, output)).len() > 0,
    ensures
        ({
            let first = trim_of(lines_of(summary_of(name, output))[0]);
            &&& first.len() <= 70 ==> result_hint_of(name, output) == first
            &&& first.len() > 70 ==> result_hint_of(name, output) == first.take(70) + "…"@
        }),
{
}

} // verus!
