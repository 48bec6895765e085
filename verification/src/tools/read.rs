//! The tool that reads a file.
use vstd::prelude::*;

use crate::json::{object4, text_value, Json, JsonView};
use crate::numbers::{decimal, decimal_text, zero_padded, zero_padded_text};
use crate::ordered::{law_lookup_finds_first, lookup};
use crate::schema::conforms;
use crate::std_text::{decode, decoded};
use crate::summary::is_error;
use crate::text::{copy_range, join, join_of, raw_lines_of, split_keepends, texts};
use super::{argument, bounded_note, describe, error_of, error_output, integer_property, integer_schema, is_positive, is_protected, is_protected_path, law_arguments_conform_iff, law_error_is_told, lemma_begins_with_error, lemma_value_conforms, missing_argument, missing_argument_output, object_parameters, object_schema, positive_property, positive_schema, string_property, string_schema, text_argument, AgentTool, ToolSpec, ToolView};

verus! {

/// The tool that reads a file.
pub struct ReadTool {
    pub root: Option<String>,
    pub protected_paths: Vec<String>,
    pub listing: ToolSpec,
}

/// What came of looking for a file.
pub enum FileOutcome {
    /// The path leads nowhere the tool may go; why, in words.
    Unresolved(String),
    /// There is nothing at this path.
    Missing(String),
    /// There is something else than a file at this path.
    NotFile(String),
    /// Reading failed; why, in words.
    Failed(String),
    /// The file at this path holds these bytes.
    Found(String, Vec<u8>),
}

// ---------------------------------------------------------------------------
// Specifications
// ---------------------------------------------------------------------------

/// The schema of the arguments.
pub open spec fn read_schema() -> JsonView {
    object_schema(
        JsonView::Object(
            seq![
                ("limit"@, positive_schema("Maximum number of lines to read."@)),
                ("offset"@, positive_schema("1-indexed starting line number."@)),
                ("path"@, string_schema("Path to the file to read."@)),
                (
                    "with_line_numbers"@,
                    integer_schema(
                        "Set to 1 (default) to prefix each returned line with its line number; 0 to return raw text."@,
                    ),
                ),
            ],
        ),
        seq![JsonView::Str("path"@)],
    )
}

/// What the tool is said to do.
pub open spec fn read_profile(root: Option<String>) -> ToolView {
    ToolView {
        name: "read"@,
        description: "Read a text file. Supports optional 1-indexed offset and line limit. By default, prefixes each returned line with a 1-indexed line number."@
            + bounded_note(root),
        parameters: read_schema(),
        enabled: true,
    }
}

/// The larger of a number and one.
pub open spec fn at_least_one(n: int) -> int {
    if n > 1 {
        n
    } else {
        1
    }
}

/// How many lines are passed over.
pub open spec fn lines_before(offset: Option<int>) -> int {
    match offset {
        Some(n) => at_least_one(n) - 1,
        None => 0,
    }
}

/// Where the lines asked for end, however many there are.
pub open spec fn lines_upto(start: int, limit: Option<int>, count: nat) -> int {
    match limit {
        Some(n) => start + at_least_one(n),
        None => count as int,
    }
}

/// Lines, each behind its number; the first has the number `first`.
pub open spec fn numbered_of(lines: Seq<Seq<char>>, first: nat, width: nat) -> Seq<char>
    decreases lines.len(),
{
    if lines.len() == 0 {
        Seq::empty()
    } else {
        numbered_of(lines.drop_last(), first, width) + zero_padded(
            decimal((first + lines.len() - 1) as nat),
            width,
        ) + ": "@ + lines.last()
    }
}

/// The part of a file that is asked for, with or without line numbers.
pub open spec fn excerpt(
    path: Seq<char>,
    content: Seq<char>,
    offset: Option<int>,
    limit: Option<int>,
    numbered: bool,
) -> Seq<char> {
    let lines = raw_lines_of(content);
    let start = lines_before(offset);
    let upto = lines_upto(start, limit, lines.len());
    let end = if upto < lines.len() { upto } else { lines.len() as int };
    if start >= lines.len() {
        Seq::empty()
    } else if !numbered {
        join_of(lines.subrange(start, end), ""@)
    } else {
        let digits = decimal(upto as nat).len();
        "# path: "@ + path + "\n# lines: "@ + decimal((start + 1) as nat) + "-"@ + decimal(end as nat) + "\n"@
            + numbered_of(lines.subrange(start, end), (start + 1) as nat, if digits > 4 { digits } else { 4 })
    }
}

/// The lines are to be numbered.
pub open spec fn wants_numbers(args: JsonView) -> bool {
    match args.get_i64("with_line_numbers"@) {
        Some(n) => n != 0,
        None => true,
    }
}

/// The path that was looked at, where there is one.
pub open spec fn outcome_path(outcome: FileOutcome) -> Option<Seq<char>> {
    match outcome {
        FileOutcome::Unresolved(_) => None,
        FileOutcome::Missing(path) => Some(path@),
        FileOutcome::NotFile(path) => Some(path@),
        FileOutcome::Failed(_) => None,
        FileOutcome::Found(path, _) => Some(path@),
    }
}

/// Why the file at a resolved path may not be read, if it may not.
pub open spec fn read_refusal(path: Seq<char>, protected: Seq<Seq<char>>) -> Option<Seq<char>> {
    if is_protected(path, protected) {
        Some("Error: reading this file is not allowed"@)
    } else {
        None
    }
}

/// How a call is answered that asks for a protected file, if it does.
pub open spec fn outcome_refusal(outcome: FileOutcome, protected: Seq<Seq<char>>) -> Option<Seq<char>> {
    match outcome_path(outcome) {
        Some(path) => read_refusal(path, protected),
        None => None,
    }
}

/// What the tool answers, given what came of looking for the file.
pub open spec fn read_answer(args: JsonView, outcome: FileOutcome, protected: Seq<Seq<char>>) -> Seq<char> {
    match (argument(args, "path"@), outcome_refusal(outcome, protected)) {
        (None, _) => missing_argument("path"@),
        (Some(_), Some(refusal)) => refusal,
        (Some(_), None) => match outcome {
            FileOutcome::Unresolved(e) => error_of(e@),
            FileOutcome::Missing(path) => error_of("file not found: "@ + path@),
            FileOutcome::NotFile(path) => error_of("not a file: "@ + path@),
            FileOutcome::Failed(e) => error_of(e@),
            FileOutcome::Found(path, bytes) => excerpt(
                path@,
                decoded(bytes@),
                args.get_i64("offset"@),
                args.get_i64("limit"@),
                wants_numbers(args),
            ),
        },
    }
}

// ---------------------------------------------------------------------------
// Functions
// ---------------------------------------------------------------------------

/// Lines, each behind its number.
fn number_lines(lines: &Vec<String>, first: u64, width: usize) -> (r: String)
    requires
        first + lines@.len() <= u64::MAX + 1,
    ensures
        r@ == numbered_of(texts(lines@), first as nat, width as nat),
{
    let ghost all = texts(lines@);
    let mut out = String::new();
    assert(out@ =~= numbered_of(all.take(0), first as nat, width as nat));
    for i in 0..lines.len()
        invariant
            all == texts(lines@),
            first + lines@.len() <= u64::MAX + 1,
            out@ == numbered_of(all.take(i as int), first as nat, width as nat),
    {
        proof {
            assert(all.take(i + 1).drop_last() =~= all.take(i as int));
            assert(all.take(i + 1).last() == lines@[i as int]@);
        }
        out.append(zero_padded_text(decimal_text(first + i as u64).as_str(), width).as_str());
        out.append(": ");
        out.append(lines[i].as_str());
    }
    assert(all.take(lines@.len() as int) =~= all);
    out
}

/// The part of a file that is asked for, with or without line numbers.
pub fn excerpt_text(path: &str, content: &str, offset: Option<i64>, limit: Option<i64>, numbered: bool) -> (r: String)
    ensures
        r@ == excerpt(
            path@,
            content@,
            (match offset {
                Some(n) => Some(n as int),
                None => None,
            }),
            (match limit {
                Some(n) => Some(n as int),
                None => None,
            }),
            numbered,
        ),
{
    let lines = split_keepends(content);
    let n = lines.len();
    assert(texts(lines@).len() == n);
    let start: u64 = match offset {
        Some(k) => if k > 1 {
            (k - 1) as u64
        } else {
            0
        },
        None => 0,
    };
    if start >= n as u64 {
        return String::new();
    }
    let upto: u64 = match limit {
        Some(k) => start + (if k > 1 {
            k as u64
        } else {
            1
        }),
        None => n as u64,
    };
    let end: u64 = if upto < n as u64 { upto } else { n as u64 };
    let chunk = copy_range(&lines, start as usize, end as usize);
    if !numbered {
        return join(&chunk, "");
    }
    let digits = decimal_text(upto);
    let width = if digits.as_str().unicode_len() > 4 { digits.as_str().unicode_len() } else { 4 };
    let mut out = String::from_str("# path: ");
    out.append(path);
    out.append("\n# lines: ");
    out.append(decimal_text(start + 1).as_str());
    out.append("-");
    out.append(decimal_text(end).as_str());
    out.append("\n");
    assert(texts(chunk@).len() == chunk@.len());
    out.append(number_lines(&chunk, start + 1, width).as_str());
    out
}

impl ReadTool {
    /// The tool, held to the directory `root` where one is given.
    pub fn new(root: Option<String>) -> (r: ReadTool)
        ensures
            r.root == root,
            r.protected_paths@.len() == 0,
            r.profile() == read_profile(root),
    {
        let description = describe(
            "Read a text file. Supports optional 1-indexed offset and line limit. By default, prefixes each returned line with a 1-indexed line number.",
            &root,
        );
        let required = vec![text_value("path")];
        assert(crate::json::list_view(required@) =~= seq![JsonView::Str("path"@)]);
        let parameters = object_parameters(
            object4(
                "limit",
                positive_property("Maximum number of lines to read."),
                "offset",
                positive_property("1-indexed starting line number."),
                "path",
                string_property("Path to the file to read."),
                "with_line_numbers",
                integer_property(
                    "Set to 1 (default) to prefix each returned line with its line number; 0 to return raw text.",
                ),
            ),
            required,
        );
        ReadTool {
            root,
            protected_paths: Vec::new(),
            listing: ToolSpec { name: String::from_str("read"), description, parameters, enabled: true },
        }
    }

    /// The tool with resolved paths that it may not read.
    pub fn with_protected_paths(self, protected_paths: Vec<String>) -> (r: ReadTool)
        ensures
            r.root == self.root,
            r.protected_paths == protected_paths,
            r.profile() == self.profile(),
    {
        ReadTool { root: self.root, protected_paths, listing: self.listing }
    }

    /// Why the file at a resolved path may not be read, if it may not.
    pub fn refusal(&self, resolved: &str) -> (r: Option<String>)
        ensures
            match r {
                Some(e) => read_refusal(resolved@, texts(self.protected_paths@)) == Some(e@),
                None => read_refusal(resolved@, texts(self.protected_paths@)) is None,
            },
    {
        if is_protected_path(resolved, &self.protected_paths) {
            Some(String::from_str("Error: reading this file is not allowed"))
        } else {
            None
        }
    }

    /// The path that a call asks for, or how the call is answered without one.
    pub fn wanted(args: &Json) -> (r: Result<String, String>)
        ensures
            match r {
                Ok(p) => argument(args@, "path"@) == Some(p@),
                Err(e) => argument(args@, "path"@) is None && e@ == missing_argument("path"@),
            },
    {
        match text_argument(args, "path") {
            Some(p) => Ok(String::from_str(p)),
            None => Err(missing_argument_output("path")),
        }
    }

    /// What the tool answers, given what came of looking for the file. Of a protected
    /// file nothing is told but that it may not be read.
    pub fn answer(&self, args: &Json, outcome: &FileOutcome) -> (r: String)
        ensures
            r@ == read_answer(args@, *outcome, texts(self.protected_paths@)),
            outcome_refusal(*outcome, texts(self.protected_paths@)) is Some ==> is_error(r@),
    {
        proof { law_protected_file_is_not_read(args@, *outcome, texts(self.protected_paths@)); }
        if text_argument(args, "path").is_none() {
            return missing_argument_output("path");
        }
        let path: Option<&String> = match outcome {
            FileOutcome::Unresolved(_) => None,
            FileOutcome::Missing(path) => Some(path),
            FileOutcome::NotFile(path) => Some(path),
            FileOutcome::Failed(_) => None,
            FileOutcome::Found(path, _) => Some(path),
        };
        if let Some(path) = path {
            if let Some(refusal) = self.refusal(path.as_str()) {
                return refusal;
            }
        }
        match outcome {
            FileOutcome::Unresolved(e) => error_output(e.as_str()),
            FileOutcome::Missing(path) => {
                let mut message = String::from_str("file not found: ");
                message.append(path.as_str());
                error_output(message.as_str())
            },
            FileOutcome::NotFile(path) => {
                let mut message = String::from_str("not a file: ");
                message.append(path.as_str());
                error_output(message.as_str())
            },
            FileOutcome::Failed(e) => error_output(e.as_str()),
            FileOutcome::Found(path, bytes) => {
                let numbered = match args.get_i64("with_line_numbers") {
                    Some(n) => n != 0,
                    None => true,
                };
                let content = decode(bytes);
                excerpt_text(
                    path.as_str(),
                    content.as_str(),
                    args.get_i64("offset"),
                    args.get_i64("limit"),
                    numbered,
                )
            },
        }
    }
}

impl AgentTool for ReadTool {
    open spec fn profile(&self) -> ToolView {
        self.listing@
    }

    fn name(&self) -> (r: &str) {
        self.listing.name.as_str()
    }

    fn description(&self) -> (r: &str) {
        self.listing.description.as_str()
    }

    fn parameters(&self) -> (r: &Json) {
        &self.listing.parameters
    }

    fn enabled(&self) -> (r: bool) {
        self.listing.enabled
    }

    fn set_enabled(&mut self, v: bool) {
        self.listing.enabled = v;
    }
}

// ---------------------------------------------------------------------------
// Laws
// ---------------------------------------------------------------------------

/// A protected file is not read: whatever it holds, the answer to a call that asks for
/// it is the same, and is told to be an error.
pub proof fn law_protected_file_is_not_read(args: JsonView, outcome: FileOutcome, protected: Seq<Seq<char>>)
    ensures
        outcome_refusal(outcome, protected) is Some ==> {
            &&& is_error(read_answer(args, outcome, protected))
            &&& forall|other: FileOutcome|
                outcome_path(other) == outcome_path(outcome) ==> #[trigger] read_answer(args, other, protected)
                    == read_answer(args, outcome, protected)
        },
{
    reveal_strlit("Error: reading this file is not allowed");
    lemma_begins_with_error("Error: reading this file is not allowed"@);
    law_error_is_told(Seq::empty(), "path"@);
}

/// Reading a whole file without line numbers gives its content.
pub proof fn law_raw_read_is_content(path: Seq<char>, content: Seq<char>)
    ensures
        excerpt(path, content, None, None, false) == content,
{
    let lines = raw_lines_of(content);
    lemma_raw_lines_join(content);
    assert(lines.subrange(0, lines.len() as int) =~= lines);
}

/// Two pages of a file, one behind the other, give its content: the first `n` lines,
/// and the lines from the one behind them on.
pub proof fn law_pages_join(path: Seq<char>, content: Seq<char>, n: int)
    requires
        1 <= n,
    ensures
        excerpt(path, content, None, Some(n), false) + excerpt(path, content, Some(n + 1), None, false) == content,
{
    let lines = raw_lines_of(content);
    lemma_raw_lines_join(content);
    let len = lines.len() as int;
    if n >= len {
        assert(lines.subrange(0, len) =~= lines);
        assert(excerpt(path, content, Some(n + 1), None, false) =~= Seq::empty());
        if len == 0 {
            assert(content =~= Seq::empty());
        }
    } else {
        lemma_join_split(lines, n);
        assert(lines.subrange(0, n) =~= lines.take(n));
        assert(lines.subrange(n, len) =~= lines.skip(n));
    }
}

/// The lines that are asked for, wherever they begin: from the line `offset` on, `limit`
/// of them, or as many as there are.
pub proof fn law_excerpt_is_the_lines_asked_for(path: Seq<char>, content: Seq<char>, offset: int, limit: int)
    requires
        1 <= offset,
        1 <= limit,
    ensures
        ({
            let lines = raw_lines_of(content);
            let n = lines.len() as int;
            let page = excerpt(path, content, Some(offset), Some(limit), false);
            &&& offset + limit - 1 <= n ==> page == join_of(lines.subrange(offset - 1, offset - 1 + limit), ""@)
            &&& offset <= n < offset + limit - 1 ==> page == join_of(lines.skip(offset - 1), ""@)
            &&& offset > n ==> page.len() == 0
            &&& offset <= n ==> excerpt(path, content, Some(offset), None, false) == join_of(lines.skip(offset - 1), ""@)
            &&& excerpt(path, content, None, Some(limit), false) == excerpt(path, content, Some(1), Some(limit), false)
        }),
{
    let lines = raw_lines_of(content);
    let n = lines.len() as int;
    if offset <= n {
        assert(lines.subrange(offset - 1, n) =~= lines.skip(offset - 1));
    }
}

/// A page and what follows it give what there is from its beginning on, wherever it
/// begins.
pub proof fn law_any_page_joins(path: Seq<char>, content: Seq<char>, offset: int, limit: int)
    requires
        1 <= offset,
        1 <= limit,
    ensures
        excerpt(path, content, Some(offset), Some(limit), false) + excerpt(
            path,
            content,
            Some(offset + limit),
            None,
            false,
        ) == excerpt(path, content, Some(offset), None, false),
{
    let lines = raw_lines_of(content);
    let n = lines.len() as int;
    law_excerpt_is_the_lines_asked_for(path, content, offset, limit);
    law_excerpt_is_the_lines_asked_for(path, content, offset + limit, limit);
    if offset > n {
        assert(excerpt(path, content, Some(offset), None, false) =~= Seq::empty());
        assert(excerpt(path, content, Some(offset), Some(limit), false) =~= Seq::empty());
        assert(excerpt(path, content, Some(offset + limit), None, false) =~= Seq::empty());
    } else if offset + limit - 1 < n {
        let rest = lines.skip(offset - 1);
        lemma_join_split(rest, limit);
        assert(rest.take(limit) =~= lines.subrange(offset - 1, offset - 1 + limit));
        assert(rest.skip(limit) =~= lines.skip(offset + limit - 1));
    } else {
        assert(lines.subrange(offset - 1, n) =~= lines.skip(offset - 1));
        let page = excerpt(path, content, Some(offset), Some(limit), false);
        assert(excerpt(path, content, Some(offset + limit), None, false) =~= Seq::empty());
        assert(page + Seq::<char>::empty() =~= page);
    }
}

/// An offset or a limit below one counts as one.
pub proof fn law_numbers_below_one_count_as_one(
    path: Seq<char>,
    content: Seq<char>,
    offset: int,
    limit: int,
    numbered: bool,
)
    requires
        offset <= 1,
        limit <= 1,
    ensures
        excerpt(path, content, Some(offset), Some(limit), numbered) == excerpt(path, content, Some(1), Some(1), numbered),
        excerpt(path, content, Some(offset), None, numbered) == excerpt(path, content, None, None, numbered),
{
}

/// With numbers, the same lines are shown, each behind its own number, below a head that
/// names the file and the first and the last line.
pub proof fn law_numbered_excerpt(path: Seq<char>, content: Seq<char>, offset: int, limit: int, last: int)
    requires
        1 <= offset <= last <= raw_lines_of(content).len(),
        1 <= limit,
        last == raw_lines_of(content).len() || last == offset + limit - 1,
        last <= offset + limit - 1,
    ensures
        excerpt(path, content, Some(offset), Some(limit), true) == "# path: "@ + path + "\n# lines: "@ + decimal(
            offset as nat,
        ) + "-"@ + decimal(last as nat) + "\n"@ + numbered_of(
            raw_lines_of(content).subrange(offset - 1, last),
            offset as nat,
            if decimal((offset + limit - 1) as nat).len() > 4 {
                decimal((offset + limit - 1) as nat).len()
            } else {
                4
            },
        ),
{
}

/// Lines are numbered one after the other: each stands behind its number, filled up with
/// zeros, and a colon.
pub proof fn law_each_line_has_its_number(a: Seq<Seq<char>>, b: Seq<Seq<char>>, first: nat, width: nat, line: Seq<char>)
    ensures
        numbered_of(a + b, first, width) == numbered_of(a, first, width) + numbered_of(b, first + a.len(), width),
        numbered_of(seq![line], first, width) == zero_padded(decimal(first), width) + ": "@ + line,
        numbered_of(Seq::empty(), first, width).len() == 0,
    decreases b.len(),
{
    let one = seq![line];
    assert(one.drop_last() =~= Seq::empty());
    assert(numbered_of(one.drop_last(), first, width) =~= Seq::empty());
    assert(one.last() == line && (first + one.len() - 1) as nat == first);
    assert(numbered_of(one, first, width) =~= zero_padded(decimal(first), width) + ": "@ + line);
    if b.len() == 0 {
        assert(a + b =~= a);
        assert(numbered_of(b, first + a.len(), width) =~= Seq::empty());
        assert(numbered_of(a, first, width) + numbered_of(b, first + a.len(), width) =~= numbered_of(a, first, width));
    } else {
        assert((a + b).drop_last() =~= a + b.drop_last());
        law_each_line_has_its_number(a, b.drop_last(), first, width, line);
        assert(numbered_of(a + b, first, width) =~= numbered_of(a, first, width) + numbered_of(
            b,
            first + a.len(),
            width,
        ));
    }
}

/// What a call is answered that asks for a file which may be read: the lines that its
/// arguments ask for, numbered unless it says otherwise.
pub proof fn law_found_file_is_shown(args: JsonView, path: String, bytes: Vec<u8>, protected: Seq<Seq<char>>)
    requires
        args.get_str("path"@) matches Some(p) && p.len() > 0,
        !is_protected(path@, protected),
    ensures
        read_answer(args, FileOutcome::Found(path, bytes), protected) == excerpt(
            path@,
            decoded(bytes@),
            args.get_i64("offset"@),
            args.get_i64("limit"@),
            args.get_i64("with_line_numbers"@) != Some(0int),
        ),
{
}

proof fn lemma_raw_lines_join(s: Seq<char>)
    ensures
        join_of(raw_lines_of(s), ""@) == s,
    decreases s.len(),
{
    reveal_strlit("");
    let n = crate::text::first_of(s, '\n');
    if s.len() == 0 {
        assert(join_of(raw_lines_of(s), ""@) =~= s);
    } else if 0 <= n < s.len() {
        let rest = raw_lines_of(s.skip(n + 1));
        lemma_raw_lines_join(s.skip(n + 1));
        let all = raw_lines_of(s);
        assert(all =~= seq![s.take(n + 1)] + rest);
        lemma_join_split(all, 1);
        assert(all.take(1) =~= seq![s.take(n + 1)]);
        assert(all.skip(1) =~= rest);
        assert(s.take(n + 1) + s.skip(n + 1) =~= s);
    }
}

/// Joining without a separator may be done in two parts.
proof fn lemma_join_split(parts: Seq<Seq<char>>, k: int)
    requires
        0 <= k <= parts.len(),
    ensures
        join_of(parts, ""@) == join_of(parts.take(k), ""@) + join_of(parts.skip(k), ""@),
    decreases parts.len() - k,
{
    reveal_strlit("");
    let whole = join_of(parts, ""@);
    if k == parts.len() {
        assert(parts.take(k) =~= parts);
        assert(parts.skip(k) =~= Seq::empty());
        assert(whole =~= join_of(parts.take(k), ""@) + join_of(parts.skip(k), ""@));
    } else {
        let front = parts.drop_last();
        lemma_join_split(front, k);
        assert(front.take(k) =~= parts.take(k));
        let tail = parts.skip(k);
        assert(tail.drop_last() =~= front.skip(k));
        assert(tail.last() == parts.last());
        if parts.len() == 1 {
            assert(parts.take(k) =~= Seq::empty());
        }
        if tail.len() == 1 {
            assert(front.skip(k) =~= Seq::empty());
        }
        assert(whole =~= join_of(front, ""@) + parts.last());
        assert(join_of(tail, ""@) =~= join_of(front.skip(k), ""@) + parts.last());
        assert(whole =~= join_of(parts.take(k), ""@) + join_of(parts.skip(k), ""@));
    }
}

/// A call may give a path, the first line, how many lines and whether they are numbered,
/// each of them or none but the path, and nothing else.
pub proof fn law_read_call_conforms_iff(args: JsonView)
    ensures
        conforms(read_schema(), args) <==> {
            &&& args is Object
            &&& args.get("path"@) is Some
            &&& forall|i: int| 0 <= i < args->Object_0.len() ==> read_entry_is_sound(#[trigger] args->Object_0[i])
        },
{
    let properties = read_schema_properties();
    let required = seq![JsonView::Str("path"@)];
    assert(read_schema() == object_schema(JsonView::Object(properties), required));
    law_arguments_conform_iff(properties, required, args);
    assert(required[0] == JsonView::Str("path"@));
    if args is Object {
        let e = args->Object_0;
        assert forall|i: int| 0 <= i < e.len() implies read_entry_is_sound(#[trigger] e[i]) == (lookup(
            properties,
            e[i].0,
        ) matches Some(sub) && conforms(sub, e[i].1)) by {
            lemma_read_entry(e[i]);
        }
        if args.get("path"@) is Some {
            assert forall|i: int| 0 <= i < required.len() implies (#[trigger] required[i] matches JsonView::Str(k)
                ==> args.get(k) is Some) by {}
        }
    }
}

/// The properties of the schema.
spec fn read_schema_properties() -> Seq<(Seq<char>, JsonView)> {
    seq![
        ("limit"@, positive_schema("Maximum number of lines to read."@)),
        ("offset"@, positive_schema("1-indexed starting line number."@)),
        ("path"@, string_schema("Path to the file to read."@)),
        (
            "with_line_numbers"@,
            integer_schema(
                "Set to 1 (default) to prefix each returned line with its line number; 0 to return raw text."@,
            ),
        ),
    ]
}

/// The entry is one that a call may give: the path as a text, and whole numbers, of which
/// the line and the limit begin at one.
pub open spec fn read_entry_is_sound(e: (Seq<char>, JsonView)) -> bool {
    ||| e.0 == "path"@ && e.1 is Str
    ||| e.0 == "with_line_numbers"@ && (e.1.as_i64() is Some || e.1.as_u64() is Some)
    ||| (e.0 == "limit"@ || e.0 == "offset"@) && is_positive(e.1)
}

proof fn lemma_read_entry(e: (Seq<char>, JsonView))
    ensures
        read_entry_is_sound(e) == (lookup(read_schema_properties(), e.0) matches Some(sub) && conforms(sub, e.1)),
{
    let p = read_schema_properties();
    reveal_strlit("limit");
    reveal_strlit("offset");
    reveal_strlit("path");
    reveal_strlit("with_line_numbers");
    assert("limit"@.len() == 5 && "offset"@.len() == 6 && "path"@.len() == 4 && "with_line_numbers"@.len() == 17);
    assert(p[0].0 == "limit"@ && p[1].0 == "offset"@ && p[2].0 == "path"@ && p[3].0 == "with_line_numbers"@);
    lemma_value_conforms(p[0].1, e.1, "Maximum number of lines to read."@);
    lemma_value_conforms(p[1].1, e.1, "1-indexed starting line number."@);
    lemma_value_conforms(p[2].1, e.1, "Path to the file to read."@);
    lemma_value_conforms(
        p[3].1,
        e.1,
        "Set to 1 (default) to prefix each returned line with its line number; 0 to return raw text."@,
    );
    if e.0 == "limit"@ {
        law_lookup_finds_first(p, e.0, 0);
    } else if e.0 == "offset"@ {
        law_lookup_finds_first(p, e.0, 1);
    } else if e.0 == "path"@ {
        law_lookup_finds_first(p, e.0, 2);
    } else if e.0 == "with_line_numbers"@ {
        law_lookup_finds_first(p, e.0, 3);
    } else {
        law_lookup_finds_first(p, e.0, 4);
    }
}

/// A file that there is none of, that is none, or that cannot be read is told to be so; a
/// protected one is refused before that.
pub proof fn law_unread_file_is_told(args: JsonView, path: String, message: String, protected: Seq<Seq<char>>)
    requires
        argument(args, "path"@) is Some,
    ensures
        read_answer(args, FileOutcome::Unresolved(message), protected) == error_of(message@),
        read_answer(args, FileOutcome::Failed(message), protected) == error_of(message@),
        !is_protected(path@, protected) ==> {
            &&& read_answer(args, FileOutcome::Missing(path), protected) == error_of("file not found: "@ + path@)
            &&& read_answer(args, FileOutcome::NotFile(path), protected) == error_of("not a file: "@ + path@)
        },
        is_protected(path@, protected) ==> {
            &&& read_answer(args, FileOutcome::Missing(path), protected) == "Error: reading this file is not allowed"@
            &&& read_answer(args, FileOutcome::NotFile(path), protected) == "Error: reading this file is not allowed"@
        },
{
}

} // verus!
