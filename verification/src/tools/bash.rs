//! The tool that runs a command.
use vstd::prelude::*;

use crate::json::{list_view, object2, text_value, Json, JsonView};
use crate::model::maybe_text;
use crate::numbers::{is_digit, law_signed_decimal_reads_back, lemma_decimal, signed_decimal, signed_decimal_text};
use crate::summary::exit_code_of;
use crate::ordered::{in_order, law_lookup_finds_first, lookup, NameSet};
use crate::schema::conforms;
use crate::shell::{join_command, shell_join, shell_split, split_command};
use crate::std_text::{decode, decoded, quote, quoted};
use crate::text::{begins, chars_of, contains, contains_of, find, find_of, is_space, join, join_of, lemma_find, lemma_first_line, lemma_strip_trailing_keeps, lemma_texts_push, lemma_trim_same, one_of, same, starts_with, strip_trailing, strip_trailing_of, text_of, texts, trim_of, trim_start_of};
use super::sets::{default_allowed_commands, default_commands};
use super::{argument, is_positive, law_arguments_conform_iff, lemma_value_conforms, error_of, error_output, is_protected, is_protected_path, missing_argument, missing_argument_output, object_parameters, object_schema, positive_property, positive_schema, string_property, string_schema, text_argument, AgentTool, ToolSpec, ToolView};

verus! {

/// The tool that runs a command.
pub struct BashTool {
    pub cwd: Option<String>,
    pub bounded: bool,
    pub allowed_commands: NameSet,
    pub protected_paths: Vec<String>,
    pub listing: ToolSpec,
}

/// A command that may be run.
pub struct BashJob {
    pub command: String,
    /// After how many seconds the command is stopped.
    pub timeout: Option<u64>,
}

/// What came of running a command.
pub enum BashOutcome {
    /// The command could not be run to its end; why, in words.
    Failed(String),
    /// The exit code, where there is one, and what was printed to either output.
    Finished(Option<i32>, Vec<u8>, Vec<u8>),
}

/// A path that a command mentions.
pub struct Mention {
    /// The word that mentions it.
    pub word: String,
    pub path: String,
    /// The word is a flag, and gives the path as a value.
    pub in_flag: bool,
}

/// What a mention says.
pub struct MentionView {
    pub word: Seq<char>,
    pub path: Seq<char>,
    pub in_flag: bool,
}

impl Mention {
    /// What the mention says.
    pub open spec fn view(&self) -> MentionView {
        MentionView { word: self.word@, path: self.path@, in_flag: self.in_flag }
    }
}

/// What a list of mentions says.
pub open spec fn mentions_view(v: Seq<Mention>) -> Seq<MentionView> {
    v.map_values(|m: Mention| m@)
}

/// What can be wrong with a word of a command.
#[derive(Clone, Copy, PartialEq, Eq, Structural)]
pub enum Flaw {
    /// `find` would run a program, or delete files.
    FindFlag,
    /// `rg` would run a program.
    RgFlag,
    /// `git` would change its settings.
    GitConfig,
    /// `git` would take its settings from elsewhere, or run a program.
    GitFlag,
    /// `git` would run a program to reach a repository.
    GitTransport,
}

// ---------------------------------------------------------------------------
// Specifications
// ---------------------------------------------------------------------------

/// The character has a meaning to the shell that is not allowed.
pub open spec fn is_blocked(c: char) -> bool {
    c == '|' || c == '&' || c == ';' || c == '>' || c == '<' || c == '`' || c == '$' || c == '\n' || c == '\r'
}

/// A character of the command is blocked.
pub open spec fn has_blocked(command: Seq<char>) -> bool {
    exists|i: int| 0 <= i < command.len() && is_blocked(#[trigger] command[i])
}

/// The word is flawed.
pub open spec fn flawed(flaw: Flaw, word: Seq<char>) -> bool {
    match flaw {
        Flaw::FindFlag => word == "-exec"@ || word == "-execdir"@ || word == "-ok"@ || word == "-okdir"@ || word
            == "-delete"@,
        Flaw::RgFlag => word == "--pre"@ || word == "--pre-glob"@ || begins(word, "--pre="@) || begins(
            word,
            "--pre-glob="@,
        ),
        Flaw::GitConfig => word == "config"@,
        Flaw::GitFlag => word == "-c"@ || word == "-p"@ || word == "--paginate"@ || begins(word, "--exec-path"@)
            || begins(word, "--git-dir"@) || begins(word, "--work-tree"@) || begins(word, "--namespace"@) || begins(
            word,
            "--upload-pack"@,
        ) || begins(word, "--receive-pack"@) || begins(word, "--upload-archive"@),
        Flaw::GitTransport => contains_of(word, "ext::"@) || contains_of(word, "fd::"@),
    }
}

/// The first flawed word.
pub open spec fn first_flawed(flaw: Flaw, words: Seq<Seq<char>>) -> Option<Seq<char>>
    decreases words.len(),
{
    if words.len() == 0 {
        None
    } else if flawed(flaw, words[0]) {
        Some(words[0])
    } else {
        first_flawed(flaw, words.skip(1))
    }
}

/// The letter of a short flag takes what is left of its word for a value, in a program
/// that is known to read a file which a short flag names.
pub open spec fn takes_rest(exe: Seq<char>, c: char) -> bool {
    if exe == "grep"@ {
        "ABCDXdefm"@.contains(c)
    } else if exe == "rg"@ {
        "ABCEMTdefgjmrt"@.contains(c)
    } else if exe == "sed"@ {
        "efil"@.contains(c)
    } else {
        false
    }
}

/// The file that a short flag names behind the letter `f`, among its letters from the
/// `i`th on: those before it take no value.
pub open spec fn short_value(exe: Seq<char>, word: Seq<char>, i: int) -> Option<Seq<char>>
    decreases word.len() - i,
{
    if i < 0 || i >= word.len() {
        None
    } else if !takes_rest(exe, word[i]) {
        short_value(exe, word, i + 1)
    } else if word[i] == 'f' && i + 1 < word.len() {
        Some(word.skip(i + 1))
    } else {
        None
    }
}

/// The path that a flag may give as a value. A long flag gives what stands behind its
/// first equals sign, whether the program takes it for a path or not; a short one gives
/// the file that it names.
pub open spec fn flag_value(exe: Seq<char>, word: Seq<char>) -> Option<Seq<char>> {
    if begins(word, "--"@) {
        match find_of(word, "="@) {
            Some(i) => Some(word.skip(i + 1)),
            None => None,
        }
    } else {
        short_value(exe, word, 1)
    }
}

/// The paths that a word mentions. A word is a flag where it begins with a dash, unless
/// it stands behind `--`.
pub open spec fn mentioned(exe: Seq<char>, word: Seq<char>, behind: bool) -> Seq<MentionView> {
    if behind || !begins(word, "-"@) {
        seq![MentionView { word, path: word, in_flag: false }]
    } else {
        match flag_value(exe, word) {
            Some(path) => seq![MentionView { word, path, in_flag: true }],
            None => Seq::empty(),
        }
    }
}

/// The paths that the words behind the program mention, in order.
pub open spec fn mentions(exe: Seq<char>, words: Seq<Seq<char>>) -> Seq<MentionView>
    decreases words.len(),
{
    if words.len() == 0 {
        Seq::empty()
    } else {
        mentions(exe, words.drop_last()) + mentioned(exe, words.last(), words.drop_last().contains("--"@))
    }
}

/// The texts of paths that are mentioned.
pub open spec fn paths_of(mentions: Seq<MentionView>) -> Seq<Seq<char>> {
    mentions.map_values(|m: MentionView| m.path)
}

/// What a path resolves to inside the working directory, as far as that is known.
pub open spec fn resolution(resolved: Seq<Option<Seq<char>>>, i: int) -> Option<Seq<char>> {
    if 0 <= i < resolved.len() {
        resolved[i]
    } else {
        None
    }
}

/// Why a path may not be mentioned, if it may not. What a flag gives as a value need be
/// no path, so that it may lead anywhere but to a protected one.
pub open spec fn mention_fault(m: MentionView, resolved: Option<Seq<char>>, protected: Seq<Seq<char>>) -> Option<Seq<char>> {
    match resolved {
        None => if m.in_flag {
            None
        } else {
            Some("argument escapes working directory: "@ + quoted(m.word))
        },
        Some(path) => if is_protected(path, protected) {
            Some("argument targets a protected path: "@ + quoted(m.word))
        } else {
            None
        },
    }
}

/// The first reason why one of the paths, from the `i`th on, may not be mentioned.
pub open spec fn mentions_fault(
    list: Seq<MentionView>,
    resolved: Seq<Option<Seq<char>>>,
    protected: Seq<Seq<char>>,
    i: int,
) -> Option<Seq<char>>
    decreases list.len() - i,
{
    if i < 0 || i >= list.len() {
        None
    } else {
        match mention_fault(list[i], resolution(resolved, i), protected) {
            Some(f) => Some(f),
            None => mentions_fault(list, resolved, protected, i + 1),
        }
    }
}

/// Why the arguments of a program may not be what they are, whatever they resolve
/// to.
pub open spec fn arguments_fault(exe: Seq<char>, args: Seq<Seq<char>>) -> Option<Seq<char>> {
    if exe == "find"@ || exe == "bfs"@ || exe == "gfind"@ {
        match first_flawed(Flaw::FindFlag, args) {
            Some(bad) => Some(
                "disallowed "@ + exe + " flag "@ + quoted(bad)
                    + ": spawns an arbitrary program per match or deletes files"@,
            ),
            None => None,
        }
    } else if exe == "rg"@ {
        match first_flawed(Flaw::RgFlag, args) {
            Some(_) => Some("disallowed rg flag --pre/--pre-glob: spawns an arbitrary preprocessor program"@),
            None => None,
        }
    } else if exe == "git"@ {
        if first_flawed(Flaw::GitConfig, args) is Some {
            Some(
                "disallowed git subcommand 'config': can set core.pager/core.fsmonitor/alias.*/etc, turning a later plain git invocation into arbitrary command execution"@,
            )
        } else {
            match first_flawed(Flaw::GitFlag, args) {
                Some(bad) => Some(
                    "disallowed git flag "@ + quoted(bad) + ": can override config/paths or force hook execution"@,
                ),
                None => match first_flawed(Flaw::GitTransport, args) {
                    Some(bad) => Some(
                        "disallowed git argument "@ + quoted(bad)
                            + ": ext:: and fd:: transports spawn an arbitrary helper program"@,
                    ),
                    None => None,
                },
            }
        }
    } else {
        None
    }
}

/// Why a command of the given words may not be run, if it may not. The paths that the
/// words mention resolve to `resolved`, in order; `held` says whether the command is
/// held to a directory.
pub open spec fn words_fault(
    words: Seq<Seq<char>>,
    allowed: Set<Seq<char>>,
    held: bool,
    resolved: Seq<Option<Seq<char>>>,
    protected: Seq<Seq<char>>,
) -> Option<Seq<char>> {
    if words.len() == 0 {
        Some("empty command"@)
    } else if !allowed.contains(words[0]) {
        Some("command not allowed: "@ + quoted(words[0]))
    } else {
        match arguments_fault(words[0], words.skip(1)) {
            Some(f) => Some(f),
            None => if held {
                mentions_fault(mentions(words[0], words.skip(1)), resolved, protected, 0)
            } else {
                None
            },
        }
    }
}

/// Why a command may not be run, if it may not.
pub open spec fn command_fault(
    command: Seq<char>,
    words: Option<Seq<Seq<char>>>,
    allowed: Set<Seq<char>>,
    held: bool,
    resolved: Seq<Option<Seq<char>>>,
    protected: Seq<Seq<char>>,
) -> Option<Seq<char>> {
    if has_blocked(command) {
        Some("blocked shell syntax detected"@)
    } else {
        match words {
            None => Some("could not parse command"@),
            Some(w) => words_fault(w, allowed, held, resolved, protected),
        }
    }
}

/// The letter of a short option of `sed` that takes what is left of its word, or else
/// the next word.
pub open spec fn is_taker(c: char) -> bool {
    c == 'e' || c == 'f' || c == 'l'
}

/// The word is an option of `sed` that takes the next word for its own: one of the
/// short options `-e`, `-f` and `-l`, alone or behind others, or one of the long ones,
/// in full or in short.
pub open spec fn takes_next(word: Seq<char>) -> bool {
    if begins(word, "--"@) {
        word.len() > 2 && (begins("--expression"@, word) || begins("--file"@, word) || begins("--line-length"@, word))
    } else {
        &&& word.len() > 1
        &&& word[0] == '-'
        &&& is_taker(word.last())
        &&& forall|k: int| 1 <= k < word.len() - 1 ==> !is_taker(#[trigger] word[k]) && word[k] != 'i'
    }
}

/// The word at this place is the flag that keeps `sed` from running programs and
/// writing files: it does not belong to the option before it, and no `--` stands
/// before it, behind which all words are names of files.
pub open spec fn is_flag_at(words: Seq<Seq<char>>, i: int) -> bool {
    &&& 1 <= i < words.len()
    &&& words[i] == "--sandbox"@
    &&& !takes_next(words[i - 1])
    &&& forall|k: int| 0 <= k < i ==> #[trigger] words[k] != "--"@
}

/// One of the words is the flag.
pub open spec fn has_flag(words: Seq<Seq<char>>) -> bool {
    exists|i: int| #[trigger] is_flag_at(words, i)
}

/// The words of a command with the flag; none where it need not be added.
pub open spec fn sandboxed(words: Option<Seq<Seq<char>>>) -> Option<Seq<Seq<char>>> {
    match words {
        Some(w) => if w.len() > 0 && w[0] == "sed"@ && !has_flag(w) {
            Some(w.insert(1, "--sandbox"@))
        } else {
            None
        },
        None => None,
    }
}

/// A command of these words that runs `sed` runs it with the flag.
pub open spec fn is_sandboxed(words: Option<Seq<Seq<char>>>) -> bool {
    words matches Some(w) ==> w.len() > 0 && w[0] == "sed"@ ==> has_flag(w)
}

/// The command as it is run.
pub open spec fn hardened(command: Seq<char>) -> Seq<char> {
    match sandboxed(shell_split(command)) {
        Some(w) => shell_join(w),
        None => command,
    }
}

/// What is told of the limits of the allowed commands.
pub open spec fn caveats(allowed: Set<Seq<char>>) -> Seq<Seq<char>> {
    let find = if allowed.contains("find"@) || allowed.contains("bfs"@) || allowed.contains("gfind"@) {
        seq![
            "find: -exec/-execdir/-ok/-okdir are rejected (they run an arbitrary program per match); use find only to locate paths, then act on results with other tools."@,
        ]
    } else {
        seq![]
    };
    let rg = if allowed.contains("rg"@) {
        seq!["rg: --pre/--pre-glob are rejected (they run an arbitrary preprocessor per file)."@]
    } else {
        seq![]
    };
    let sed = if allowed.contains("sed"@) {
        seq![
            "sed: always runs with --sandbox enforced, so e/w/r commands (e.g. '1e cmd', 's/x/y/e') are disabled; use sed only for text substitution."@,
        ]
    } else {
        seq![]
    };
    let git = if allowed.contains("git"@) {
        seq![
            "git: the config subcommand and -c/-p/--paginate/--exec-path/--git-dir/--work-tree/--namespace/--upload-pack/--receive-pack/--upload-archive flags are rejected, as are ext:: and fd:: transport URLs."@,
        ]
    } else {
        seq![]
    };
    find + rg + sed + git
}

/// What is told of a bounded tool.
pub open spec fn bounds_text(allowed: Set<Seq<char>>) -> Seq<char> {
    let told = caveats(allowed);
    " Potentially-dangerous shell syntax is blocked (pipes, redirects, $(), etc)."@ + " Allowed commands: "@ + join_of(
        in_order(allowed),
        ", "@,
    ) + "."@ + (if told.len() > 0 { " "@ + join_of(told, " "@) } else { ""@ })
}

/// What the tool is said to do.
pub open spec fn bash_description(held: bool, bounded: bool, allowed: Set<Seq<char>>) -> Seq<char> {
    "Execute a bash command in the current working directory."@ + (if held {
        " Commands execute with the working directory set to the bounded root.Only access files and paths within the working directory;do not navigate to or read from paths outside it."@
    } else {
        ""@
    }) + (if bounded { bounds_text(allowed) } else { ""@ })
}

/// The schema of the arguments.
pub open spec fn bash_schema() -> JsonView {
    object_schema(
        JsonView::Object(
            seq![
                ("command"@, string_schema("Bash command to execute."@)),
                ("timeout"@, positive_schema("Optional timeout in seconds."@)),
            ],
        ),
        seq![JsonView::Str("command"@)],
    )
}

/// The listing of the tool.
pub open spec fn bash_profile(held: bool, bounded: bool, allowed: Set<Seq<char>>) -> ToolView {
    ToolView {
        name: "bash"@,
        description: bash_description(held, bounded, allowed),
        parameters: bash_schema(),
        enabled: true,
    }
}

/// After how many seconds the command is stopped.
pub open spec fn timeout_of(args: JsonView) -> Option<int> {
    match args.get_i64("timeout"@) {
        Some(t) => Some(if t > 0 {
            t
        } else {
            0
        }),
        None => None,
    }
}

/// What came of a command, as it is told.
pub open spec fn report_of(code: int, stdout: Seq<char>, stderr: Seq<char>) -> Seq<char> {
    strip_trailing_of(
        "exit_code: "@ + signed_decimal(code) + "\nSTDOUT:\n"@ + stdout + "\nSTDERR:\n"@ + stderr,
        "\n\r \t"@,
    ) + "\n"@
}

/// How a call is answered, given what came of the command.
pub open spec fn bash_answer(outcome: BashOutcome) -> Seq<char> {
    match outcome {
        BashOutcome::Failed(e) => error_of(e@),
        BashOutcome::Finished(code, stdout, stderr) => report_of(
            match code {
                Some(c) => c as int,
                None => -1,
            },
            decoded(stdout@),
            decoded(stderr@),
        ),
    }
}

/// The resolutions of a list of words.
pub open spec fn resolutions(v: Seq<Option<String>>) -> Seq<Option<Seq<char>>> {
    v.map_values(
        |o: Option<String>|
            match o {
                Some(s) => Some(s@),
                None => None,
            },
    )
}

// ---------------------------------------------------------------------------
// Functions
// ---------------------------------------------------------------------------

/// Whether a character of the command is blocked.
fn find_blocked(command: &str) -> (r: bool)
    ensures
        r == has_blocked(command@),
{
    let v = chars_of(command);
    for i in 0..v.len()
        invariant
            v@ == command@,
            forall|k: int| 0 <= k < i ==> !is_blocked(#[trigger] command@[k]),
    {
        let c = v[i];
        if c == '|' || c == '&' || c == ';' || c == '>' || c == '<' || c == '`' || c == '$' || c == '\n' || c == '\r' {
            assert(is_blocked(command@[i as int]));
            return true;
        }
    }
    false
}

/// Whether the word is flawed.
fn is_flawed(flaw: Flaw, word: &str) -> (r: bool)
    ensures
        r == flawed(flaw, word@),
{
    match flaw {
        Flaw::FindFlag => same(word, "-exec") || same(word, "-execdir") || same(word, "-ok") || same(word, "-okdir")
            || same(word, "-delete"),
        Flaw::RgFlag => same(word, "--pre") || same(word, "--pre-glob") || starts_with(word, "--pre=") || starts_with(
            word,
            "--pre-glob=",
        ),
        Flaw::GitConfig => same(word, "config"),
        Flaw::GitFlag => same(word, "-c") || same(word, "-p") || same(word, "--paginate") || starts_with(
            word,
            "--exec-path",
        ) || starts_with(word, "--git-dir") || starts_with(word, "--work-tree") || starts_with(word, "--namespace")
            || starts_with(word, "--upload-pack") || starts_with(word, "--receive-pack") || starts_with(
            word,
            "--upload-archive",
        ),
        Flaw::GitTransport => contains(word, "ext::") || contains(word, "fd::"),
    }
}

/// The first flawed word behind the first word.
fn find_flawed(flaw: Flaw, words: &Vec<String>) -> (r: Option<&str>)
    requires
        words@.len() >= 1,
    ensures
        match r {
            Some(w) => first_flawed(flaw, texts(words@).skip(1)) == Some(w@),
            None => first_flawed(flaw, texts(words@).skip(1)) is None,
        },
{
    let ghost all = texts(words@);
    for i in 1..words.len()
        invariant
            1 <= i <= words@.len(),
            all == texts(words@),
            first_flawed(flaw, all.skip(1)) == first_flawed(flaw, all.skip(i as int)),
    {
        proof {
            assert(all.skip(i as int)[0] == words@[i as int]@);
            assert(all.skip(i as int).skip(1) =~= all.skip(i + 1));
        }
        if is_flawed(flaw, words[i].as_str()) {
            return Some(words[i].as_str());
        }
    }
    assert(all.skip(words@.len() as int) =~= Seq::empty());
    None
}

/// Why the arguments of a program may not be what they are.
fn check_arguments(words: &Vec<String>) -> (r: Option<String>)
    requires
        words@.len() >= 1,
    ensures
        match r {
            Some(e) => arguments_fault(texts(words@)[0], texts(words@).skip(1)) == Some(e@),
            None => arguments_fault(texts(words@)[0], texts(words@).skip(1)) is None,
        },
{
    let exe = words[0].as_str();
    assert(texts(words@)[0] == exe@);
    if same(exe, "find") || same(exe, "bfs") || same(exe, "gfind") {
        match find_flawed(Flaw::FindFlag, words) {
            Some(bad) => {
                let mut out = String::from_str("disallowed ");
                out.append(exe);
                out.append(" flag ");
                out.append(quote(bad).as_str());
                out.append(": spawns an arbitrary program per match or deletes files");
                Some(out)
            },
            None => None,
        }
    } else if same(exe, "rg") {
        match find_flawed(Flaw::RgFlag, words) {
            Some(_) => Some(
                String::from_str("disallowed rg flag --pre/--pre-glob: spawns an arbitrary preprocessor program"),
            ),
            None => None,
        }
    } else if same(exe, "git") {
        if find_flawed(Flaw::GitConfig, words).is_some() {
            return Some(
                String::from_str(
                    "disallowed git subcommand 'config': can set core.pager/core.fsmonitor/alias.*/etc, turning a later plain git invocation into arbitrary command execution",
                ),
            );
        }
        match find_flawed(Flaw::GitFlag, words) {
            Some(bad) => {
                let mut out = String::from_str("disallowed git flag ");
                out.append(quote(bad).as_str());
                out.append(": can override config/paths or force hook execution");
                Some(out)
            },
            None => match find_flawed(Flaw::GitTransport, words) {
                Some(bad) => {
                    let mut out = String::from_str("disallowed git argument ");
                    out.append(quote(bad).as_str());
                    out.append(": ext:: and fd:: transports spawn an arbitrary helper program");
                    Some(out)
                },
                None => None,
            },
        }
    } else {
        None
    }
}

/// Adds a mention to a list.
fn add_mention(out: &mut Vec<Mention>, word: &str, path: &str, in_flag: bool)
    ensures
        mentions_view(final(out)@) == mentions_view(old(out)@).push(
            (MentionView { word: word@, path: path@, in_flag }),
        ),
{
    let ghost before = mentions_view(out@);
    out.push(Mention { word: String::from_str(word), path: String::from_str(path), in_flag });
    assert(mentions_view(out@) =~= before.push((MentionView { word: word@, path: path@, in_flag })));
}

/// Whether the letter of a short flag takes what is left of its word for a value.
fn is_rest_taken(exe: &str, c: char) -> (r: bool)
    ensures
        r == takes_rest(exe@, c),
{
    if same(exe, "grep") {
        one_of(c, &chars_of("ABCDXdefm"))
    } else if same(exe, "rg") {
        one_of(c, &chars_of("ABCEMTdefgjmrt"))
    } else if same(exe, "sed") {
        one_of(c, &chars_of("efil"))
    } else {
        false
    }
}

/// The path that a flag may give as a value.
fn find_flag_value(exe: &str, word: &str) -> (r: Option<String>)
    ensures
        maybe_text(r) == flag_value(exe@, word@),
{
    let v = chars_of(word);
    let n = v.len();
    if starts_with(word, "--") {
        proof {
            reveal_strlit("=");
            lemma_find(word@, "="@);
        }
        return match find(word, "=") {
            Some(i) => {
                let value = text_of(&v, i + 1, n);
                assert(value@ =~= word@.skip(i + 1));
                Some(value)
            },
            None => None,
        };
    }
    let mut i: usize = 1;
    while i < n
        invariant
            1 <= i,
            n == v@.len(),
            v@ == word@,
            !begins(word@, "--"@),
            short_value(exe@, word@, 1) == short_value(exe@, word@, i as int),
        decreases n - i,
    {
        let c = v[i];
        if is_rest_taken(exe, c) {
            if c == 'f' && i + 1 < n {
                let value = text_of(&v, i + 1, n);
                assert(value@ =~= word@.skip(i + 1));
                return Some(value);
            }
            return None;
        }
        i = i + 1;
    }
    None
}

/// The paths that the words behind the first mention.
fn find_mentions(words: &Vec<String>) -> (r: Vec<Mention>)
    requires
        words@.len() >= 1,
    ensures
        mentions_view(r@) == mentions(texts(words@)[0], texts(words@).skip(1)),
{
    let exe = words[0].as_str();
    let ghost all = texts(words@).skip(1);
    let mut out: Vec<Mention> = Vec::new();
    let mut behind = false;
    assert(mentions_view(out@) =~= mentions(exe@, all.take(0)));
    for i in 1..words.len()
        invariant
            1 <= i <= words@.len(),
            all == texts(words@).skip(1),
            mentions_view(out@) == mentions(exe@, all.take(i - 1)),
            behind == all.take(i - 1).contains("--"@),
    {
        proof {
            assert(all.take(i as int).drop_last() =~= all.take(i - 1));
            assert(all.take(i as int).last() == words@[i as int]@);
            assert(all.take(i as int) =~= all.take(i - 1).push(words@[i as int]@));
        }
        let word = words[i].as_str();
        let ghost before = mentions_view(out@);
        if behind || !starts_with(word, "-") {
            add_mention(&mut out, word, word, false);
        } else if let Some(value) = find_flag_value(exe, word) {
            add_mention(&mut out, word, value.as_str(), true);
        }
        assert(mentions_view(out@) =~= before + mentioned(exe@, word@, behind));
        proof {
            let now = all.take(i as int);
            let past = all.take(i - 1);
            if behind {
                let k = choose|k: int| 0 <= k < past.len() && past[k] == "--"@;
                assert(now[k] == "--"@);
            } else if word@ == "--"@ {
                assert(now[i - 1] == "--"@);
            } else {
                assert forall|k: int| 0 <= k < now.len() implies now[k] != "--"@ by {
                    if k < i - 1 {
                        assert(past[k] == now[k]);
                    }
                }
            }
        }
        behind = behind || same(word, "--");
    }
    assert(all.take(words@.len() - 1) =~= all);
    out
}

/// The first reason why one of the paths may not be mentioned.
fn check_mentions(list: &Vec<Mention>, resolved: &Vec<Option<String>>, protected: &Vec<String>) -> (r: Option<String>)
    ensures
        match r {
            Some(e) => mentions_fault(mentions_view(list@), resolutions(resolved@), texts(protected@), 0) == Some(e@),
            None => mentions_fault(mentions_view(list@), resolutions(resolved@), texts(protected@), 0) is None,
        },
{
    let ghost m = mentions_view(list@);
    let ghost s = resolutions(resolved@);
    let ghost p = texts(protected@);
    for i in 0..list.len()
        invariant
            m == mentions_view(list@),
            s == resolutions(resolved@),
            p == texts(protected@),
            mentions_fault(m, s, p, 0) == mentions_fault(m, s, p, i as int),
    {
        assert(m[i as int] == list@[i as int]@);
        let word = list[i].word.as_str();
        let path: Option<&String> = if i < resolved.len() {
            match &resolved[i] {
                Some(p) => Some(p),
                None => None,
            }
        } else {
            None
        };
        match path {
            Some(path) => {
                assert(resolution(s, i as int) == Some(path@));
                if is_protected_path(path.as_str(), protected) {
                    let mut out = String::from_str("argument targets a protected path: ");
                    out.append(quote(word).as_str());
                    return Some(out);
                }
            },
            None => {
                assert(resolution(s, i as int) is None);
                if !list[i].in_flag {
                    let mut out = String::from_str("argument escapes working directory: ");
                    out.append(quote(word).as_str());
                    return Some(out);
                }
            },
        }
    }
    None
}

/// The texts of paths that are mentioned.
fn mentioned_paths(list: &Vec<Mention>) -> (r: Vec<String>)
    ensures
        texts(r@) == paths_of(mentions_view(list@)),
{
    let mut out: Vec<String> = Vec::new();
    for i in 0..list.len()
        invariant
            out@.len() == i,
            forall|k: int| 0 <= k < i ==> (#[trigger] out@[k])@ == list@[k].path@,
    {
        out.push(list[i].path.clone());
    }
    assert(texts(out@) =~= paths_of(mentions_view(list@)));
    out
}

/// Adds a text to a list.
fn add_text(out: &mut Vec<String>, text: &str)
    ensures
        texts(final(out)@) == texts(old(out)@).push(text@),
{
    let new = String::from_str(text);
    proof { lemma_texts_push(out@, new); }
    out.push(new);
}

/// What is told of the limits of the allowed commands.
fn list_caveats(allowed: &NameSet) -> (r: Vec<String>)
    ensures
        texts(r@) == caveats(allowed@),
{
    let mut out: Vec<String> = Vec::new();
    assert(texts(out@) =~= Seq::empty());
    if allowed.contains("find") || allowed.contains("bfs") || allowed.contains("gfind") {
        add_text(
            &mut out,
            "find: -exec/-execdir/-ok/-okdir are rejected (they run an arbitrary program per match); use find only to locate paths, then act on results with other tools.",
        );
    }
    if allowed.contains("rg") {
        add_text(
            &mut out,
            "rg: --pre/--pre-glob are rejected (they run an arbitrary preprocessor per file).",
        );
    }
    if allowed.contains("sed") {
        add_text(
            &mut out,
            "sed: always runs with --sandbox enforced, so e/w/r commands (e.g. '1e cmd', 's/x/y/e') are disabled; use sed only for text substitution.",
        );
    }
    if allowed.contains("git") {
        add_text(
            &mut out,
            "git: the config subcommand and -c/-p/--paginate/--exec-path/--git-dir/--work-tree/--namespace/--upload-pack/--receive-pack/--upload-archive flags are rejected, as are ext:: and fd:: transport URLs.",
        );
    }
    assert(texts(out@) =~= caveats(allowed@));
    out
}

/// What is told of a bounded tool.
fn describe_bounds(allowed: &NameSet) -> (r: String)
    requires
        allowed.wf(),
    ensures
        r@ == bounds_text(allowed@),
{
    proof { allowed.lemma_listed(); }
    let mut out = String::from_str(" Potentially-dangerous shell syntax is blocked (pipes, redirects, $(), etc).");
    out.append(" Allowed commands: ");
    out.append(join(&allowed.to_list(), ", ").as_str());
    out.append(".");
    let told = list_caveats(allowed);
    assert(texts(told@).len() == told@.len());
    if told.len() > 0 {
        let mut more = String::from_str(" ");
        more.append(join(&told, " ").as_str());
        out.append(more.as_str());
    } else {
        out.append("");
    }
    out
}

/// Whether the word is an option of `sed` that takes the next word for its own.
fn is_next_taken(word: &str) -> (r: bool)
    ensures
        r == takes_next(word@),
{
    proof { reveal_strlit("--"); }
    let v = chars_of(word);
    let n = v.len();
    if starts_with(word, "--") {
        return n > 2 && (starts_with("--expression", word) || starts_with("--file", word) || starts_with(
            "--line-length",
            word,
        ));
    }
    if n < 2 || v[0] != '-' {
        return false;
    }
    let last = v[n - 1];
    if last != 'e' && last != 'f' && last != 'l' {
        return false;
    }
    for i in 1..n - 1
        invariant
            v@ == word@,
            n == v@.len(),
            n >= 2,
            !begins(word@, "--"@),
            forall|k: int| 1 <= k < i ==> !is_taker(#[trigger] word@[k]) && word@[k] != 'i',
    {
        let c = v[i];
        if c == 'e' || c == 'f' || c == 'l' || c == 'i' {
            assert(is_taker(word@[i as int]) || word@[i as int] == 'i');
            return false;
        }
    }
    true
}

/// Whether one of the words is the flag that keeps `sed` from running programs.
fn finds_flag(words: &Vec<String>) -> (r: bool)
    requires
        words@.len() >= 1,
    ensures
        r == has_flag(texts(words@)),
{
    let ghost w = texts(words@);
    for i in 0..words.len()
        invariant
            w == texts(words@),
            forall|k: int| 0 <= k < i ==> #[trigger] w[k] != "--"@,
            forall|k: int| k < i ==> !#[trigger] is_flag_at(w, k),
    {
        assert(w[i as int] == words@[i as int]@);
        if same(words[i].as_str(), "--") {
            assert forall|k: int| !#[trigger] is_flag_at(w, k) by {
                if k > i {
                    assert(w[i as int] == "--"@);
                } else if k == i {
                    reveal_strlit("--");
                    reveal_strlit("--sandbox");
                    assert("--"@.len() == 2 && "--sandbox"@.len() == 9);
                }
            }
            return false;
        }
        if i > 0 && same(words[i].as_str(), "--sandbox") {
            assert(w[i - 1] == words@[i - 1]@);
            if !is_next_taken(words[i - 1].as_str()) {
                assert(is_flag_at(w, i as int));
                return true;
            }
        }
    }
    false
}

/// The command with the flag that keeps `sed` from running programs and writing
/// files, where it needs it. The words of a command that is changed are those of
/// the command with the flag behind the first. No command comes out that runs `sed`
/// without the flag.
pub fn harden_command(command: &str) -> (r: String)
    ensures
        r@ == hardened(command@),
        sandboxed(shell_split(command@)) is Some ==> shell_split(r@) == sandboxed(shell_split(command@)),
        is_sandboxed(shell_split(r@)),
{
    let mut parts = match split_command(command) {
        Some(p) => p,
        None => {
            return String::from_str(command);
        },
    };
    let ghost w = texts(parts@);
    if parts.len() == 0 {
        return String::from_str(command);
    }
    assert(w[0] == parts@[0]@);
    if !same(parts[0].as_str(), "sed") {
        return String::from_str(command);
    }
    if finds_flag(&parts) {
        return String::from_str(command);
    }
    parts.insert(1, String::from_str("--sandbox"));
    proof {
        let hardened = w.insert(1, "--sandbox"@);
        assert(texts(parts@) =~= hardened);
        reveal_strlit("sed");
        reveal_strlit("--");
        assert(hardened[0] == "sed"@);
        assert("sed"@.len() == 3 && "--"@.len() == 2);
        assert(!takes_next("sed"@)) by {
            assert("sed"@[0] == 's' && "--"@[0] == '-');
            if begins("sed"@, "--"@) {
                assert("sed"@.take(2)[0] == "--"@[0]);
            }
        }
        assert(is_flag_at(hardened, 1));
    }
    join_command(&parts)
}

impl BashTool {
    /// The tool is as it was made.
    pub open spec fn wf(&self) -> bool {
        self.allowed_commands.wf()
    }

    /// The tool, with the directory in which commands run, whether they are held to
    /// the allowed ones, and these, where they are not the usual ones.
    pub fn new(cwd: Option<String>, bounded: bool, allowed_commands: Option<NameSet>) -> (r: BashTool)
        requires
            allowed_commands matches Some(a) ==> a.wf(),
        ensures
            r.wf(),
            r.cwd == cwd,
            r.bounded == bounded,
            r.allowed_commands@ == (match allowed_commands {
                Some(a) => a@,
                None => default_commands(),
            }),
            r.protected_paths@.len() == 0,
            r.profile() == bash_profile(cwd is Some, bounded, r.allowed_commands@),
    {
        let allowed = match allowed_commands {
            Some(a) => a,
            None => default_allowed_commands(),
        };
        let mut description = String::from_str("Execute a bash command in the current working directory.");
        description.append(
            if cwd.is_some() {
                " Commands execute with the working directory set to the bounded root.Only access files and paths within the working directory;do not navigate to or read from paths outside it."
            } else {
                ""
            },
        );
        if bounded {
            description.append(describe_bounds(&allowed).as_str());
        } else {
            description.append("");
        }
        let required = vec![text_value("command")];
        assert(list_view(required@) =~= seq![JsonView::Str("command"@)]);
        let parameters = object_parameters(
            object2(
                "command",
                string_property("Bash command to execute."),
                "timeout",
                positive_property("Optional timeout in seconds."),
            ),
            required,
        );
        BashTool {
            cwd,
            bounded,
            allowed_commands: allowed,
            protected_paths: Vec::new(),
            listing: ToolSpec { name: String::from_str("bash"), description, parameters, enabled: true },
        }
    }

    /// The tool with resolved paths that no command may name.
    pub fn with_protected_paths(self, protected_paths: Vec<String>) -> (r: BashTool)
        ensures
            self.wf() ==> r.wf(),
            r.cwd == self.cwd,
            r.bounded == self.bounded,
            r.allowed_commands@ == self.allowed_commands@,
            r.protected_paths == protected_paths,
            r.profile() == self.profile(),
    {
        BashTool {
            cwd: self.cwd,
            bounded: self.bounded,
            allowed_commands: self.allowed_commands,
            protected_paths,
            listing: self.listing,
        }
    }

    /// Why a command of the given words may not be run, if it may not, given what
    /// the paths that they mention resolve to.
    pub fn check_words(&self, words: &Vec<String>, resolved: &Vec<Option<String>>) -> (r: Option<String>)
        ensures
            match r {
                Some(e) => words_fault(
                    texts(words@),
                    self.allowed_commands@,
                    self.cwd is Some,
                    resolutions(resolved@),
                    texts(self.protected_paths@),
                ) == Some(e@),
                None => words_fault(
                    texts(words@),
                    self.allowed_commands@,
                    self.cwd is Some,
                    resolutions(resolved@),
                    texts(self.protected_paths@),
                ) is None,
            },
    {
        if words.len() == 0 {
            assert(texts(words@).len() == 0);
            return Some(String::from_str("empty command"));
        }
        assert(texts(words@)[0] == words@[0]@);
        let exe = words[0].as_str();
        if !self.allowed_commands.contains(exe) {
            let mut out = String::from_str("command not allowed: ");
            out.append(quote(exe).as_str());
            return Some(out);
        }
        if let Some(fault) = check_arguments(words) {
            return Some(fault);
        }
        if self.cwd.is_some() {
            check_mentions(&find_mentions(words), resolved, &self.protected_paths)
        } else {
            None
        }
    }

    /// Why a command may not be run, if it may not, given what the paths that it
    /// mentions resolve to.
    pub fn validate_command(&self, command: &str, resolved: &Vec<Option<String>>) -> (r: Option<String>)
        ensures
            match r {
                Some(e) => self.bounded && command_fault(
                    command@,
                    shell_split(command@),
                    self.allowed_commands@,
                    self.cwd is Some,
                    resolutions(resolved@),
                    texts(self.protected_paths@),
                ) == Some(e@),
                None => !self.bounded || command_fault(
                    command@,
                    shell_split(command@),
                    self.allowed_commands@,
                    self.cwd is Some,
                    resolutions(resolved@),
                    texts(self.protected_paths@),
                ) is None,
            },
    {
        if !self.bounded {
            return None;
        }
        if find_blocked(command) {
            return Some(String::from_str("blocked shell syntax detected"));
        }
        match split_command(command) {
            None => Some(String::from_str("could not parse command")),
            Some(words) => self.check_words(&words, resolved),
        }
    }

    /// The paths that a call's command mentions, whose resolutions its validation asks
    /// for, in order.
    pub fn words_to_resolve(&self, args: &Json) -> (r: Vec<String>)
        ensures
            texts(r@) == (match (argument(args@, "command"@), self.cwd) {
                (Some(command), Some(_)) if self.bounded => match shell_split(command) {
                    Some(w) => if w.len() > 0 {
                        paths_of(mentions(w[0], w.skip(1)))
                    } else {
                        Seq::empty()
                    },
                    None => Seq::empty(),
                },
                _ => Seq::<Seq<char>>::empty(),
            }),
    {
        let none: Vec<String> = Vec::new();
        assert(texts(none@) =~= Seq::empty());
        if self.bounded && self.cwd.is_some() {
            if let Some(command) = text_argument(args, "command") {
                if let Some(words) = split_command(command) {
                    assert(texts(words@).len() == words@.len());
                    if words.len() > 0 {
                        return mentioned_paths(&find_mentions(&words));
                    }
                }
            }
        }
        none
    }

    /// The command that a call has run and for how long at most, or how the call is
    /// answered where it may not be run.
    pub fn prepare(&self, args: &Json, resolved: &Vec<Option<String>>) -> (r: Result<BashJob, String>)
        ensures
            match argument(args@, "command"@) {
                None => r matches Err(e) && e@ == missing_argument("command"@),
                Some(command) => match command_fault(
                    command,
                    shell_split(command),
                    self.allowed_commands@,
                    self.cwd is Some,
                    resolutions(resolved@),
                    texts(self.protected_paths@),
                ) {
                    Some(fault) if self.bounded => r matches Err(e) && e@ == error_of(fault),
                    _ => {
                        &&& r is Ok
                        &&& r->Ok_0.command@ == (if self.bounded { hardened(command) } else { command })
                        &&& self.bounded ==> is_sandboxed(shell_split(r->Ok_0.command@))
                        &&& match r->Ok_0.timeout {
                            Some(t) => timeout_of(args@) == Some(t as int),
                            None => timeout_of(args@) is None,
                        }
                    },
                },
            },
    {
        let command = match text_argument(args, "command") {
            Some(c) => c,
            None => {
                return Err(missing_argument_output("command"));
            },
        };
        if let Some(fault) = self.validate_command(command, resolved) {
            return Err(error_output(fault.as_str()));
        }
        let timeout: Option<u64> = match args.get_i64("timeout") {
            Some(t) => Some(if t > 0 {
                t as u64
            } else {
                0
            }),
            None => None,
        };
        let command = if self.bounded { harden_command(command) } else { String::from_str(command) };
        Ok(BashJob { command, timeout })
    }

    /// How a call is answered, given what came of the command.
    pub fn answer(outcome: &BashOutcome) -> (r: String)
        ensures
            r@ == bash_answer(*outcome),
    {
        match outcome {
            BashOutcome::Failed(e) => error_output(e.as_str()),
            BashOutcome::Finished(code, stdout, stderr) => {
                let code: i64 = match code {
                    Some(c) => *c as i64,
                    None => -1,
                };
                report(code, decode(stdout).as_str(), decode(stderr).as_str())
            },
        }
    }
}

/// What came of a command, as it is told.
pub fn report(code: i64, stdout: &str, stderr: &str) -> (r: String)
    ensures
        r@ == report_of(code as int, stdout@, stderr@),
{
    let mut out = String::from_str("exit_code: ");
    out.append(signed_decimal_text(code).as_str());
    out.append("\nSTDOUT:\n");
    out.append(stdout);
    out.append("\nSTDERR:\n");
    out.append(stderr);
    let mut kept = String::from_str(strip_trailing(out.as_str(), "\n\r \t"));
    kept.append("\n");
    kept
}

impl AgentTool for BashTool {
    open spec fn profile(&self) -> ToolView {
        self.listing@
    }

    fn name(&self) -> (r: &str) {
        self.listing.name.as_str()
    }

    fn description(&self) -> (r: &str) {
        self.listing.description.as_str()
    }

    fn parameters(&self) -> (r: &Json) {
        &self.listing.parameters
    }

    fn enabled(&self) -> (r: bool) {
        self.listing.enabled
    }

    fn set_enabled(&mut self, v: bool) {
        self.listing.enabled = v;
    }
}

// ---------------------------------------------------------------------------
// Laws
// ---------------------------------------------------------------------------

/// A command that may be run has no blocked character, can be split into words, and
/// begins with the name of an allowed program.
pub proof fn law_accepted_command(
    command: Seq<char>,
    words: Option<Seq<Seq<char>>>,
    allowed: Set<Seq<char>>,
    held: bool,
    resolved: Seq<Option<Seq<char>>>,
    protected: Seq<Seq<char>>,
)
    requires
        command_fault(command, words, allowed, held, resolved, protected) is None,
    ensures
        forall|i: int| 0 <= i < command.len() ==> !is_blocked(#[trigger] command[i]),
        words matches Some(w) && w.len() > 0 && allowed.contains(w[0]),
{
}

/// No argument of a command that may be run is flawed in a way that the program
/// named first is held to.
pub proof fn law_accepted_arguments(
    words: Seq<Seq<char>>,
    allowed: Set<Seq<char>>,
    held: bool,
    resolved: Seq<Option<Seq<char>>>,
    protected: Seq<Seq<char>>,
    i: int,
)
    requires
        words_fault(words, allowed, held, resolved, protected) is None,
        1 <= i < words.len(),
    ensures
        words[0] == "find"@ || words[0] == "bfs"@ || words[0] == "gfind"@ ==> !flawed(Flaw::FindFlag, words[i]),
        words[0] == "rg"@ ==> !flawed(Flaw::RgFlag, words[i]),
        words[0] == "git"@ ==> !flawed(Flaw::GitConfig, words[i]) && !flawed(Flaw::GitFlag, words[i]) && !flawed(
            Flaw::GitTransport,
            words[i],
        ),
{
    let args = words.skip(1);
    assert(args[i - 1] == words[i]);
    lemma_none_flawed(Flaw::FindFlag, args, i - 1);
    lemma_none_flawed(Flaw::RgFlag, args, i - 1);
    lemma_none_flawed(Flaw::GitConfig, args, i - 1);
    lemma_none_flawed(Flaw::GitFlag, args, i - 1);
    lemma_none_flawed(Flaw::GitTransport, args, i - 1);
    reveal_strlit("find");
    reveal_strlit("bfs");
    reveal_strlit("gfind");
    reveal_strlit("rg");
    reveal_strlit("git");
    assert("find"@.len() == 4 && "bfs"@.len() == 3 && "gfind"@.len() == 5 && "rg"@.len() == 2 && "git"@.len() == 3);
    assert("bfs"@[0] == 'b' && "git"@[0] == 'g');
}

proof fn lemma_none_flawed(flaw: Flaw, words: Seq<Seq<char>>, i: int)
    requires
        0 <= i < words.len(),
    ensures
        first_flawed(flaw, words) is None ==> !flawed(flaw, words[i]),
    decreases words.len(),
{
    if i > 0 {
        lemma_none_flawed(flaw, words.skip(1), i - 1);
        assert(words.skip(1)[i - 1] == words[i]);
    }
}

/// No path that a command mentions that is held to a directory and may be run is a
/// protected one, be it an argument or the value of a flag; and every argument resolves
/// inside the directory.
pub proof fn law_accepted_paths(
    words: Seq<Seq<char>>,
    allowed: Set<Seq<char>>,
    resolved: Seq<Option<Seq<char>>>,
    protected: Seq<Seq<char>>,
    i: int,
)
    requires
        words_fault(words, allowed, true, resolved, protected) is None,
        0 <= i < mentions(words[0], words.skip(1)).len(),
    ensures
        resolution(resolved, i) matches Some(path) ==> !is_protected(path, protected),
        !mentions(words[0], words.skip(1))[i].in_flag ==> resolution(resolved, i) is Some,
{
    lemma_mentions_fault(mentions(words[0], words.skip(1)), resolved, protected, 0, i);
}

proof fn lemma_mentions_fault(
    list: Seq<MentionView>,
    resolved: Seq<Option<Seq<char>>>,
    protected: Seq<Seq<char>>,
    from: int,
    i: int,
)
    requires
        mentions_fault(list, resolved, protected, from) is None,
        0 <= from <= i < list.len(),
    ensures
        mention_fault(list[i], resolution(resolved, i), protected) is None,
    decreases i - from,
{
    if from < i {
        lemma_mentions_fault(list, resolved, protected, from + 1, i);
    }
}

/// Every word behind the program that is no flag is mentioned as a path, and so is the
/// value of every flag that may give one.
pub proof fn law_arguments_are_mentioned(exe: Seq<char>, words: Seq<Seq<char>>, i: int)
    requires
        0 <= i < words.len(),
    ensures
        forall|k: int|
            0 <= k < mentioned(exe, words[i], words.take(i).contains("--"@)).len() ==> mentions(exe, words).contains(
                #[trigger] mentioned(exe, words[i], words.take(i).contains("--"@))[k],
            ),
    decreases words.len(),
{
    let front = words.drop_last();
    let own = mentioned(exe, words[i], words.take(i).contains("--"@));
    if i == words.len() - 1 {
        assert(words.take(i) =~= front);
        assert forall|k: int| 0 <= k < own.len() implies mentions(exe, words).contains(#[trigger] own[k]) by {
            assert(mentions(exe, words)[mentions(exe, front).len() + k] == own[k]);
        }
    } else {
        law_arguments_are_mentioned(exe, front, i);
        assert(front.take(i) =~= words.take(i));
        assert(front[i] == words[i]);
        assert forall|k: int| 0 <= k < own.len() implies mentions(exe, words).contains(#[trigger] own[k]) by {
            let j = choose|j: int| 0 <= j < mentions(exe, front).len() && mentions(exe, front)[j] == own[k];
            assert(mentions(exe, words)[j] == own[k]);
        }
    }
}

/// A short flag mentions no path but where it names a file: in no other program, and
/// behind no other letter.
pub proof fn law_letters_are_no_paths(exe: Seq<char>, word: Seq<char>)
    requires
        begins(word, "-"@),
        !begins(word, "--"@),
    ensures
        exe != "grep"@ && exe != "rg"@ && exe != "sed"@ ==> mentioned(exe, word, false).len() == 0,
        !word.contains('f') ==> mentioned(exe, word, false).len() == 0,
{
    lemma_short_value(exe, word, 1);
}

proof fn lemma_short_value(exe: Seq<char>, word: Seq<char>, i: int)
    ensures
        exe != "grep"@ && exe != "rg"@ && exe != "sed"@ ==> short_value(exe, word, i) is None,
        !word.contains('f') ==> short_value(exe, word, i) is None,
    decreases word.len() - i,
{
    if 0 <= i < word.len() {
        lemma_short_value(exe, word, i + 1);
    }
}

/// The exit code that a report gives is read back from it.
pub proof fn law_exit_code_reads_back(code: int, stdout: Seq<char>, stderr: Seq<char>)
    requires
        i64::MIN <= code <= i64::MAX,
    ensures
        exit_code_of(report_of(code, stdout, stderr)) == Some(code),
{
    reveal_strlit("exit_code: ");
    reveal_strlit("exit_code:");
    reveal_strlit("\nSTDOUT:\n");
    reveal_strlit("\n\r \t");
    let label = "exit_code: "@;
    let digits = signed_decimal(code);
    let head = label + digits;
    let body = head + "\nSTDOUT:\n"@ + stdout + "\nSTDERR:\n"@ + stderr;
    let set = "\n\r \t"@;
    law_signed_decimal_reads_back(code);
    lemma_decimal(if code < 0 { (-code) as nat } else { code as nat });
    assert(digits.len() > 0);
    assert(forall|i: int| 0 <= i < digits.len() ==> is_digit(#[trigger] digits[i]) || digits[i] == '-');
    let n = head.len() as int;
    // The report keeps everything up to the colon behind "STDOUT".
    let colon = n + 7;
    assert(body[colon] == ':') by {
        assert(body[colon] == "\nSTDOUT:\n"@[7]);
    }
    assert(forall|i: int| 0 <= i < set.len() ==> #[trigger] set[i] != ':');
    lemma_strip_trailing_keeps(body, set, colon);
    let kept = strip_trailing_of(body, set);
    let report = report_of(code, stdout, stderr);
    assert(report =~= kept + "\n"@);
    assert forall|i: int| 0 <= i <= colon implies #[trigger] report[i] == body[i] by {
        assert(kept.take(colon + 1)[i] == body.take(colon + 1)[i]);
    }
    assert(report[n] == '\n') by {
        assert(body[n] == "\nSTDOUT:\n"@[0]);
    }
    assert forall|i: int| 0 <= i < n implies report[i] == head[i] by {
        assert(report[i] == body[i]);
    }
    assert forall|i: int| 0 <= i < n implies head[i] != '\n' by {
        if i >= label.len() {
            assert(head[i] == digits[i - label.len()]);
        }
    }
    assert(head[n - 1] == digits[digits.len() - 1]);
    lemma_first_line(report, n);
    assert(report.take(n) =~= head);
    assert(head.last() == digits.last());
    assert(head[0] == 'e');
    lemma_trim_same(head);
    assert("exit_code:"@.len() == 10);
    assert(head.take(10) =~= "exit_code:"@);
    let rest = head.skip(10);
    assert(rest =~= seq![' '] + digits);
    assert(rest.skip(1) =~= digits);
    assert(is_space(rest[0]));
    assert(digits[0] == '-' || is_digit(digits[0]));
    assert(!is_space(digits[0]));
    lemma_trim_same(digits);
    assert(trim_start_of(rest) == trim_start_of(digits));
    assert(trim_of(rest) == digits);
}

/// The characters that have a meaning to the shell which is not allowed: pipes, other
/// commands, redirections, substitutions and ends of lines; no other character is blocked.
pub proof fn law_shell_characters_are_blocked(command: Seq<char>)
    ensures
        has_blocked(command) <==> command.contains('|') || command.contains('&') || command.contains(';')
            || command.contains('>') || command.contains('<') || command.contains('`') || command.contains('$')
            || command.contains('\n') || command.contains('\r'),
{
    if has_blocked(command) {
        let i = choose|i: int| 0 <= i < command.len() && is_blocked(#[trigger] command[i]);
        assert(command.contains(command[i]));
    }
    lemma_blocks(command, '|');
    lemma_blocks(command, '&');
    lemma_blocks(command, ';');
    lemma_blocks(command, '>');
    lemma_blocks(command, '<');
    lemma_blocks(command, '`');
    lemma_blocks(command, '$');
    lemma_blocks(command, '\n');
    lemma_blocks(command, '\r');
}

proof fn lemma_blocks(command: Seq<char>, c: char)
    requires
        is_blocked(c),
    ensures
        command.contains(c) ==> has_blocked(command),
{
    if command.contains(c) {
        let i = choose|i: int| 0 <= i < command.len() && command[i] == c;
        assert(is_blocked(command[i]));
    }
}

/// The first flawed word is found, wherever it stands; none is where none is flawed.
pub proof fn law_first_flaw_is_found(flaw: Flaw, words: Seq<Seq<char>>, i: int)
    requires
        0 <= i <= words.len(),
        forall|k: int| 0 <= k < i ==> !flawed(flaw, #[trigger] words[k]),
    ensures
        i < words.len() && flawed(flaw, words[i]) ==> first_flawed(flaw, words) == Some(words[i]),
        i == words.len() ==> first_flawed(flaw, words) is None,
    decreases i,
{
    if i > 0 {
        assert(!flawed(flaw, words[0]));
        let rest = words.skip(1);
        assert forall|k: int| 0 <= k < i - 1 implies !flawed(flaw, #[trigger] rest[k]) by {
            assert(rest[k] == words[k + 1]);
        }
        law_first_flaw_is_found(flaw, rest, i - 1);
    }
}

/// The words that are not let through, program by program.
pub proof fn law_flaws_are_these(word: Seq<char>)
    ensures
        flawed(Flaw::FindFlag, word) <==> seq!["-exec"@, "-execdir"@, "-ok"@, "-okdir"@, "-delete"@].contains(word),
        flawed(Flaw::RgFlag, word) <==> word == "--pre"@ || word == "--pre-glob"@ || begins(word, "--pre="@) || begins(
            word,
            "--pre-glob="@,
        ),
        flawed(Flaw::GitConfig, word) <==> word == "config"@,
        flawed(Flaw::GitFlag, word) <==> seq!["-c"@, "-p"@, "--paginate"@].contains(word) || exists|i: int|
            0 <= i < git_flags().len() && begins(word, #[trigger] git_flags()[i]),
        flawed(Flaw::GitTransport, word) <==> contains_of(word, "ext::"@) || contains_of(word, "fd::"@),
{
    let a = seq!["-exec"@, "-execdir"@, "-ok"@, "-okdir"@, "-delete"@];
    assert(a[0] == "-exec"@ && a[1] == "-execdir"@ && a[2] == "-ok"@ && a[3] == "-okdir"@ && a[4] == "-delete"@);
    let b = seq!["-c"@, "-p"@, "--paginate"@];
    assert(b[0] == "-c"@ && b[1] == "-p"@ && b[2] == "--paginate"@);
    let c = git_flags();
    assert(c[0] == "--exec-path"@ && c[1] == "--git-dir"@ && c[2] == "--work-tree"@ && c[3] == "--namespace"@);
    assert(c[4] == "--upload-pack"@ && c[5] == "--receive-pack"@ && c[6] == "--upload-archive"@);
}

/// The long flags of `git` that take its settings from elsewhere, or run a program.
pub open spec fn git_flags() -> Seq<Seq<char>> {
    seq![
        "--exec-path"@,
        "--git-dir"@,
        "--work-tree"@,
        "--namespace"@,
        "--upload-pack"@,
        "--receive-pack"@,
        "--upload-archive"@,
    ]
}

/// Arguments are let through exactly where none of them is flawed in a way that the
/// program is held to; other programs are held to nothing.
pub proof fn law_arguments_pass_iff_sound(exe: Seq<char>, args: Seq<Seq<char>>)
    ensures
        exe == "find"@ || exe == "bfs"@ || exe == "gfind"@ ==> (arguments_fault(exe, args) is None <==> no_flaw(
            Flaw::FindFlag,
            args,
        )),
        exe == "rg"@ ==> (arguments_fault(exe, args) is None <==> no_flaw(Flaw::RgFlag, args)),
        exe == "git"@ ==> (arguments_fault(exe, args) is None <==> no_flaw(Flaw::GitConfig, args) && no_flaw(
            Flaw::GitFlag,
            args,
        ) && no_flaw(Flaw::GitTransport, args)),
        exe != "find"@ && exe != "bfs"@ && exe != "gfind"@ && exe != "rg"@ && exe != "git"@ ==> arguments_fault(
            exe,
            args,
        ) is None,
{
    lemma_flaw_iff(Flaw::FindFlag, args);
    lemma_flaw_iff(Flaw::RgFlag, args);
    lemma_flaw_iff(Flaw::GitConfig, args);
    lemma_flaw_iff(Flaw::GitFlag, args);
    lemma_flaw_iff(Flaw::GitTransport, args);
    reveal_strlit("find");
    reveal_strlit("bfs");
    reveal_strlit("gfind");
    reveal_strlit("rg");
    reveal_strlit("git");
    assert("find"@.len() == 4 && "bfs"@.len() == 3 && "gfind"@.len() == 5 && "rg"@.len() == 2 && "git"@.len() == 3);
    assert("bfs"@[0] == 'b' && "git"@[0] == 'g');
}

/// None of the words is flawed.
pub open spec fn no_flaw(flaw: Flaw, words: Seq<Seq<char>>) -> bool {
    forall|i: int| 0 <= i < words.len() ==> !flawed(flaw, #[trigger] words[i])
}

proof fn lemma_flaw_iff(flaw: Flaw, words: Seq<Seq<char>>)
    ensures
        first_flawed(flaw, words) is None <==> no_flaw(flaw, words),
{
    if no_flaw(flaw, words) {
        law_first_flaw_is_found(flaw, words, words.len() as int);
    }
    if first_flawed(flaw, words) is None {
        assert forall|i: int| 0 <= i < words.len() implies !flawed(flaw, #[trigger] words[i]) by {
            lemma_none_flawed(flaw, words, i);
        }
    }
}

/// A command is run exactly where it has no blocked character, can be split, begins with an
/// allowed program, has no flawed argument, and, where it is held to a directory, mentions
/// no path that it may not.
pub proof fn law_command_is_run_iff(
    command: Seq<char>,
    words: Seq<Seq<char>>,
    allowed: Set<Seq<char>>,
    held: bool,
    resolved: Seq<Option<Seq<char>>>,
    protected: Seq<Seq<char>>,
)
    ensures
        command_fault(command, None, allowed, held, resolved, protected) is Some,
        command_fault(command, Some(words), allowed, held, resolved, protected) is None <==> {
            &&& !has_blocked(command)
            &&& words.len() > 0
            &&& allowed.contains(words[0])
            &&& arguments_fault(words[0], words.skip(1)) is None
            &&& held ==> mentions_are_sound(mentions(words[0], words.skip(1)), resolved, protected)
        },
{
    if words.len() > 0 {
        lemma_mentions_iff(mentions(words[0], words.skip(1)), resolved, protected);
    }
}

/// Every path that is mentioned resolves inside the directory, unless a flag gives it, and
/// none resolves to a protected one.
pub open spec fn mentions_are_sound(
    list: Seq<MentionView>,
    resolved: Seq<Option<Seq<char>>>,
    protected: Seq<Seq<char>>,
) -> bool {
    forall|i: int|
        0 <= i < list.len() ==> may_mention(#[trigger] list[i], resolution(resolved, i), protected)
}

/// The path may be mentioned, given what it resolves to inside the directory.
pub open spec fn may_mention(m: MentionView, resolved: Option<Seq<char>>, protected: Seq<Seq<char>>) -> bool {
    match resolved {
        Some(path) => !is_protected(path, protected),
        None => m.in_flag,
    }
}

proof fn lemma_mentions_iff(list: Seq<MentionView>, resolved: Seq<Option<Seq<char>>>, protected: Seq<Seq<char>>)
    ensures
        mentions_fault(list, resolved, protected, 0) is None <==> mentions_are_sound(list, resolved, protected),
{
    if mentions_fault(list, resolved, protected, 0) is None {
        assert forall|i: int| 0 <= i < list.len() implies may_mention(
            #[trigger] list[i],
            resolution(resolved, i),
            protected,
        ) by {
            lemma_mentions_fault(list, resolved, protected, 0, i);
        }
    } else {
        let i = lemma_some_mention(list, resolved, protected, 0);
        assert(mention_fault(list[i], resolution(resolved, i), protected) is Some);
    }
}

/// Where a path may not be mentioned, one is found.
proof fn lemma_some_mention(
    list: Seq<MentionView>,
    resolved: Seq<Option<Seq<char>>>,
    protected: Seq<Seq<char>>,
    from: int,
) -> (i: int)
    requires
        mentions_fault(list, resolved, protected, from) is Some,
    ensures
        0 <= from <= i < list.len(),
        mention_fault(list[i], resolution(resolved, i), protected) is Some,
    decreases list.len() - from,
{
    if mention_fault(list[from], resolution(resolved, from), protected) is None {
        lemma_some_mention(list, resolved, protected, from + 1)
    } else {
        from
    }
}

/// What is told of the paths is told of the first that may not be mentioned.
pub proof fn law_first_bad_path_is_told(
    list: Seq<MentionView>,
    resolved: Seq<Option<Seq<char>>>,
    protected: Seq<Seq<char>>,
    from: int,
    i: int,
)
    requires
        0 <= from <= i < list.len(),
        forall|k: int|
            from <= k < i ==> mention_fault(#[trigger] list[k], resolution(resolved, k), protected) is None,
    ensures
        resolution(resolved, i) is None && !list[i].in_flag ==> mentions_fault(list, resolved, protected, from) == Some(
            "argument escapes working directory: "@ + quoted(list[i].word),
        ),
        resolution(resolved, i) matches Some(path) && is_protected(path, protected) ==> mentions_fault(
            list,
            resolved,
            protected,
            from,
        ) == Some("argument targets a protected path: "@ + quoted(list[i].word)),
    decreases i - from,
{
    if from < i {
        assert(mention_fault(list[from], resolution(resolved, from), protected) is None);
        law_first_bad_path_is_told(list, resolved, protected, from + 1, i);
    }
}

/// The paths of the words are mentioned in order, word by word; all words behind `--` are
/// mentioned as they are.
pub proof fn law_words_are_mentioned_in_order(exe: Seq<char>, a: Seq<Seq<char>>, b: Seq<Seq<char>>)
    requires
        !a.contains("--"@),
    ensures
        mentions(exe, a + b) == mentions(exe, a) + mentions(exe, b),
        mentions(exe, a + seq!["--"@] + b) == mentions(exe, a) + b.map_values(
            |w: Seq<char>| MentionView { word: w, path: w, in_flag: false },
        ),
    decreases b.len(),
{
    let dashes = seq!["--"@];
    let plain = |w: Seq<char>| MentionView { word: w, path: w, in_flag: false };
    if b.len() == 0 {
        assert(a + b =~= a);
        assert(mentions(exe, a) + mentions(exe, b) =~= mentions(exe, a));
        assert(a + dashes + b =~= a.push("--"@));
        assert(a.push("--"@).drop_last() =~= a);
        lemma_dashes_mention_nothing(exe);
        assert(mentions(exe, a + dashes + b) =~= mentions(exe, a));
        assert(mentions(exe, a) + b.map_values(plain) =~= mentions(exe, a));
    } else {
        let front = b.drop_last();
        law_words_are_mentioned_in_order(exe, a, front);
        assert((a + b).drop_last() =~= a + front);
        assert((a + dashes + b).drop_last() =~= a + dashes + front);
        assert((a + front).contains("--"@) <==> front.contains("--"@)) by {
            if (a + front).contains("--"@) {
                let i = choose|i: int| 0 <= i < (a + front).len() && (a + front)[i] == "--"@;
                if i < a.len() {
                    assert(a[i] == "--"@);
                } else {
                    assert(front[i - a.len()] == "--"@);
                }
            }
            if front.contains("--"@) {
                let i = choose|i: int| 0 <= i < front.len() && front[i] == "--"@;
                assert((a + front)[a.len() + i] == "--"@);
            }
        }
        assert((a + dashes + front).contains("--"@)) by {
            assert((a + dashes + front)[a.len() as int] == "--"@);
        }
        assert(mentions(exe, a + b) =~= mentions(exe, a) + mentions(exe, b));
        assert(b.map_values(plain) =~= front.map_values(plain).push(plain(b.last())));
        assert(mentions(exe, a + dashes + b) =~= mentions(exe, a) + b.map_values(plain));
    }
}

proof fn lemma_dashes_mention_nothing(exe: Seq<char>)
    ensures
        mentioned(exe, "--"@, false).len() == 0,
{
    reveal_strlit("--");
    reveal_strlit("-");
    reveal_strlit("=");
    let w = "--"@;
    assert(w.take(1) =~= "-"@);
    assert(w.take(2) =~= w);
    lemma_find(w, "="@);
    if find_of(w, "="@) is Some {
        let i = find_of(w, "="@)->0;
        assert(w.subrange(i, i + 1)[0] == '=');
    }
}

/// A word that is no flag is a path itself; a long flag gives what stands behind its first
/// equals sign; the flag `-f` of the programs that read a file so gives what stands behind
/// it.
pub proof fn law_flags_give_their_paths(exe: Seq<char>, name: Seq<char>, value: Seq<char>)
    requires
        !name.contains('='),
    ensures
        mentioned(exe, "--"@ + name + "="@ + value, false) == seq![
            MentionView { word: "--"@ + name + "="@ + value, path: value, in_flag: true },
        ],
        mentioned(exe, "--"@ + name, false).len() == 0,
        value.len() == 0 || value[0] != '-' ==> mentioned(exe, value, false) == seq![
            MentionView { word: value, path: value, in_flag: false },
        ],
        mentioned(exe, value, true) == seq![MentionView { word: value, path: value, in_flag: false }],
        (exe == "grep"@ || exe == "rg"@ || exe == "sed"@) && value.len() > 0 ==> mentioned(exe, "-f"@ + value, false)
            == seq![MentionView { word: "-f"@ + value, path: value, in_flag: true }],
{
    reveal_strlit("--");
    reveal_strlit("-");
    reveal_strlit("-f");
    reveal_strlit("=");
    let long = "--"@ + name + "="@ + value;
    let bare = "--"@ + name;
    assert(long.take(1) =~= "-"@ && long.take(2) =~= "--"@);
    assert(bare.take(1) =~= "-"@ && bare.take(2) =~= "--"@);
    let n = 2 + name.len() as int;
    assert(long.subrange(n, n + 1) =~= "="@);
    assert forall|j: int| 0 <= j < n implies !#[trigger] crate::text::occurs_at(long, "="@, j) by {
        if crate::text::occurs_at(long, "="@, j) {
            assert(long.subrange(j, j + 1)[0] == '=');
            assert(long[j] == '=');
            if j >= 2 {
                assert(name[j - 2] == '=');
            }
        }
    }
    crate::text::lemma_find_at(long, "="@, n);
    assert(long.skip(n + 1) =~= value);
    lemma_find(bare, "="@);
    if find_of(bare, "="@) is Some {
        let i = find_of(bare, "="@)->0;
        assert(bare.subrange(i, i + 1)[0] == '=');
        assert(bare[i] == '=');
        assert(name[i - 2] == '=');
    }
    if value.len() > 0 {
        assert(value.take(1)[0] == value[0]);
        let short = "-f"@ + value;
        assert(short.take(1) =~= "-"@);
        assert(short.take(2)[1] == 'f');
        assert("--"@[1] == '-');
        reveal_strlit("ABCDXdefm");
        reveal_strlit("ABCEMTdefgjmrt");
        reveal_strlit("efil");
        assert("ABCDXdefm"@[7] == 'f' && "ABCEMTdefgjmrt"@[8] == 'f' && "efil"@[1] == 'f');
        reveal_strlit("grep");
        reveal_strlit("rg");
        reveal_strlit("sed");
        assert("grep"@.len() == 4 && "rg"@.len() == 2 && "sed"@.len() == 3);
        assert(short[1] == 'f');
        assert(short.skip(2) =~= value);
    }
}

/// A command that does not run `sed` is run as it is; one that does is run with the flag
/// right behind the program, unless it has it.
pub proof fn law_only_sed_is_changed(words: Seq<Seq<char>>)
    requires
        words.len() > 0,
    ensures
        words[0] != "sed"@ ==> sandboxed(Some(words)) is None,
        words[0] == "sed"@ && !has_flag(words) ==> (sandboxed(Some(words)) matches Some(w) && w.len() == words.len() + 1
            && w[0] == words[0] && w[1] == "--sandbox"@ && w.skip(2) == words.skip(1) && has_flag(w)),
        words[0] == "sed"@ && has_flag(words) ==> sandboxed(Some(words)) is None,
{
    if words[0] == "sed"@ && !has_flag(words) {
        let w = words.insert(1, "--sandbox"@);
        assert(w.skip(2) =~= words.skip(1));
        reveal_strlit("sed");
        reveal_strlit("--");
        assert("sed"@.len() == 3 && "--"@.len() == 2);
        assert("sed"@[0] == 's' && "--"@[0] == '-');
        if begins(w[0], "--"@) {
            assert(w[0].take(2)[0] == '-');
        }
        assert(is_flag_at(w, 1));
    }
}

/// The flag counts right behind the program; behind an option that takes it for its own it
/// does not.
pub proof fn law_flag_must_stand_free(c: char, rest: Seq<Seq<char>>)
    ensures
        has_flag(seq!["sed"@, "--sandbox"@] + rest),
        c == 'e' || c == 'f' || c == 'l' ==> takes_next(seq!['-', c]),
        c == 'e' || c == 'f' || c == 'l' ==> !is_flag_at(seq!["sed"@, seq!['-', c], "--sandbox"@] + rest, 2),
        c != 'e' && c != 'f' && c != 'l' && c != '-' ==> !takes_next(seq!['-', c]),
        takes_next("--expression"@) && takes_next("--file"@) && takes_next("--line-length"@),
{
    reveal_strlit("sed");
    reveal_strlit("--");
    reveal_strlit("--sandbox");
    reveal_strlit("--expression");
    reveal_strlit("--file");
    reveal_strlit("--line-length");
    let words = seq!["sed"@, "--sandbox"@] + rest;
    assert("sed"@.len() == 3 && "sed"@[0] == 's' && "--"@.len() == 2 && "--"@[0] == '-' && "--"@[1] == '-');
    if begins("sed"@, "--"@) {
        assert("sed"@.take(2)[0] == '-');
    }
    assert(words[0] == "sed"@ && words[1] == "--sandbox"@);
    assert(is_flag_at(words, 1));
    let w = seq!['-', c];
    if begins(w, "--"@) {
        assert(w.take(2)[1] == c);
    }
    let taken = seq!["sed"@, seq!['-', c], "--sandbox"@] + rest;
    assert(taken[1] == w);
    let a = "--expression"@;
    let b = "--file"@;
    let d = "--line-length"@;
    assert(a.take(2) =~= "--"@ && b.take(2) =~= "--"@ && d.take(2) =~= "--"@);
    assert(a.take(a.len() as int) =~= a && b.take(b.len() as int) =~= b && d.take(d.len() as int) =~= d);
}

/// A command is stopped after as many seconds as are asked for; a time below zero counts
/// as none.
pub proof fn law_timeout_is_kept(args: JsonView)
    ensures
        args.get_i64("timeout"@) matches Some(t) && t > 0 ==> timeout_of(args) == args.get_i64("timeout"@),
        args.get_i64("timeout"@) matches Some(t) && t <= 0 ==> timeout_of(args) == Some(0int),
        args.get_i64("timeout"@) is None ==> timeout_of(args) is None,
{
}

/// A report gives the exit code and both outputs whole, but for white space at its very
/// end.
pub proof fn law_report_holds_both_outputs(code: int, stdout: Seq<char>, stderr: Seq<char>, white: Seq<char>)
    requires
        forall|i: int| 0 <= i < white.len() ==> "\n\r \t"@.contains(#[trigger] white[i]),
    ensures
        stderr.len() > 0 && !"\n\r \t"@.contains(stderr.last()) ==> report_of(code, stdout, stderr + white)
            == "exit_code: "@ + signed_decimal(code) + "\nSTDOUT:\n"@ + stdout + "\nSTDERR:\n"@ + stderr + "\n"@,
        report_of(code, stdout, white) == "exit_code: "@ + signed_decimal(code) + "\nSTDOUT:\n"@ + stdout + "\nSTDERR:\n"@,
{
    reveal_strlit("\n\r \t");
    reveal_strlit("\nSTDERR:\n");
    reveal_strlit("\nSTDERR:");
    reveal_strlit("\n");
    let set = "\n\r \t"@;
    let head = "exit_code: "@ + signed_decimal(code) + "\nSTDOUT:\n"@ + stdout;
    if stderr.len() > 0 && !set.contains(stderr.last()) {
        let s = head + "\nSTDERR:\n"@ + stderr;
        assert(s.last() == stderr.last());
        assert(head + "\nSTDERR:\n"@ + (stderr + white) =~= s + white);
        crate::text::law_strip_takes_the_set(s, white, set);
    }
    let s = head + "\nSTDERR:"@;
    let b = "\n"@ + white;
    assert("\nSTDERR:"@.len() == 8 && "\nSTDERR:"@[7] == ':');
    assert(s.last() == ':');
    assert(set.len() == 4 && set[0] == '\n' && set[1] == '\r' && set[2] == ' ' && set[3] == '\t');
    assert(!set.contains(':'));
    assert(head + "\nSTDERR:\n"@ + white =~= s + b);
    assert forall|i: int| 0 <= i < b.len() implies set.contains(#[trigger] b[i]) by {
        if i == 0 {
            assert(set[0] == b[0]);
        } else {
            assert(b[i] == white[i - 1]);
        }
    }
    crate::text::law_strip_takes_the_set(s, b, set);
    assert(s + "\n"@ =~= head + "\nSTDERR:\n"@);
}

/// A command that could not be run is answered with an error; one that has no exit code
/// is told to have ended with minus one.
pub proof fn law_outcome_is_told(outcome: BashOutcome)
    ensures
        outcome matches BashOutcome::Failed(e) ==> bash_answer(outcome) == error_of(e@),
        outcome matches BashOutcome::Finished(code, stdout, stderr) ==> {
            &&& code matches Some(c) ==> bash_answer(outcome) == report_of(c as int, decoded(stdout@), decoded(stderr@))
            &&& code is None ==> bash_answer(outcome) == report_of(-1, decoded(stdout@), decoded(stderr@))
        },
{
}

/// The limits of a program are told exactly where it is allowed.
pub proof fn law_limits_are_told(allowed: Set<Seq<char>>)
    ensures
        ({
            let told = caveats(allowed);
            let find = allowed.contains("find"@) || allowed.contains("bfs"@) || allowed.contains("gfind"@);
            let f: int = if find { 1 } else { 0 };
            let r: int = if allowed.contains("rg"@) { 1 } else { 0 };
            let s: int = if allowed.contains("sed"@) { 1 } else { 0 };
            let g: int = if allowed.contains("git"@) { 1 } else { 0 };
            &&& told.len() == f + r + s + g
            &&& find ==> begins(told[0], "find: "@)
            &&& r == 1 ==> begins(told[f], "rg: "@)
            &&& s == 1 ==> begins(told[f + r], "sed: "@)
            &&& g == 1 ==> begins(told[f + r + s], "git: "@)
        }),
{
    reveal_strlit("find: ");
    reveal_strlit("rg: ");
    reveal_strlit("sed: ");
    reveal_strlit("git: ");
    reveal_strlit("find: -exec/-execdir/-ok/-okdir are rejected (they run an arbitrary program per match); use find only to locate paths, then act on results with other tools.");
    reveal_strlit("rg: --pre/--pre-glob are rejected (they run an arbitrary preprocessor per file).");
    reveal_strlit("sed: always runs with --sandbox enforced, so e/w/r commands (e.g. '1e cmd', 's/x/y/e') are disabled; use sed only for text substitution.");
    reveal_strlit("git: the config subcommand and -c/-p/--paginate/--exec-path/--git-dir/--work-tree/--namespace/--upload-pack/--receive-pack/--upload-archive flags are rejected, as are ext:: and fd:: transport URLs.");
    let told = caveats(allowed);
    if allowed.contains("find"@) || allowed.contains("bfs"@) || allowed.contains("gfind"@) {
        assert(told[0].take(6) =~= "find: "@);
    }
    let f: int = if allowed.contains("find"@) || allowed.contains("bfs"@) || allowed.contains("gfind"@) { 1 } else { 0 };
    let r: int = if allowed.contains("rg"@) { 1 } else { 0 };
    let s: int = if allowed.contains("sed"@) { 1 } else { 0 };
    if r == 1 {
        assert(told[f].take(4) =~= "rg: "@);
    }
    if s == 1 {
        assert(told[f + r].take(5) =~= "sed: "@);
    }
    if allowed.contains("git"@) {
        assert(told[f + r + s].take(5) =~= "git: "@);
    }
}

/// The description of a bounded tool lists all allowed commands, in order.
pub proof fn law_allowed_commands_are_listed(names: Seq<Seq<char>>)
    requires
        crate::ordered::ascending(names),
    ensures
        ({
            let told = caveats(names.to_set());
            let head = " Potentially-dangerous shell syntax is blocked (pipes, redirects, $(), etc)."@
                + " Allowed commands: "@ + join_of(names, ", "@) + "."@;
            &&& told.len() == 0 ==> bounds_text(names.to_set()) == head
            &&& told.len() > 0 ==> bounds_text(names.to_set()) == head + (" "@ + join_of(told, " "@))
        }),
{
    let set = names.to_set();
    assert(crate::ordered::ascending(names) && names.to_set() == set);
    let chosen = in_order(set);
    assert(crate::ordered::ascending(chosen) && chosen.to_set() == set);
    crate::ordered::law_ascending_is_unique(names, chosen);
    reveal_strlit("");
    let head = " Potentially-dangerous shell syntax is blocked (pipes, redirects, $(), etc)."@ + " Allowed commands: "@
        + join_of(names, ", "@) + "."@;
    assert(head + ""@ =~= head);
}

/// A call gives a command as a text, and may give a timeout from one on, and nothing else.
pub proof fn law_bash_call_conforms_iff(args: JsonView)
    ensures
        conforms(bash_schema(), args) <==> {
            &&& args is Object
            &&& args.get("command"@) is Some
            &&& forall|i: int|
                0 <= i < args->Object_0.len() ==> {
                    ||| (#[trigger] args->Object_0[i]).0 == "command"@ && args->Object_0[i].1 is Str
                    ||| args->Object_0[i].0 == "timeout"@ && is_positive(args->Object_0[i].1)
                }
        },
{
    let properties = seq![
        ("command"@, string_schema("Bash command to execute."@)),
        ("timeout"@, positive_schema("Optional timeout in seconds."@)),
    ];
    let required = seq![JsonView::Str("command"@)];
    assert(bash_schema() == object_schema(JsonView::Object(properties), required));
    law_arguments_conform_iff(properties, required, args);
    assert(required[0] == JsonView::Str("command"@));
    reveal_strlit("command");
    reveal_strlit("timeout");
    assert("command"@[0] == 'c' && "timeout"@[0] == 't');
    if args is Object {
        let e = args->Object_0;
        assert forall|i: int| 0 <= i < e.len() implies ((#[trigger] e[i]).0 == "command"@ && e[i].1 is Str || e[i].0
            == "timeout"@ && is_positive(e[i].1)) == (lookup(properties, e[i].0) matches Some(sub) && conforms(
            sub,
            e[i].1,
        )) by {
            lemma_value_conforms(properties[0].1, e[i].1, "Bash command to execute."@);
            lemma_value_conforms(properties[1].1, e[i].1, "Optional timeout in seconds."@);
            if e[i].0 == "command"@ {
                law_lookup_finds_first(properties, e[i].0, 0);
            } else if e[i].0 == "timeout"@ {
                law_lookup_finds_first(properties, e[i].0, 1);
            } else {
                law_lookup_finds_first(properties, e[i].0, 2);
            }
        }
        if args.get("command"@) is Some {
            assert forall|i: int| 0 <= i < required.len() implies (#[trigger] required[i] matches JsonView::Str(k)
                ==> args.get(k) is Some) by {}
        }
    }
}

/// A tool that is not held to allowed commands runs whatever command it is given, as it is
/// given. One that is held to them runs a command exactly where its fault is none, and
/// refuses it with that fault where there is one.
pub proof fn law_held_tool_refuses(
    t: BashTool,
    args: Json,
    resolved: Vec<Option<String>>,
    command: Seq<char>,
    r: Result<BashJob, String>,
)
    requires
        call_ensures(BashTool::prepare, (&t, &args, &resolved), r),
        argument(args@, "command"@) == Some(command),
    ensures
        !t.bounded ==> r is Ok && r->Ok_0.command@ == command,
        t.bounded ==> (r is Ok <==> command_fault(
            command,
            shell_split(command),
            t.allowed_commands@,
            t.cwd is Some,
            resolutions(resolved@),
            texts(t.protected_paths@),
        ) is None),
        t.bounded && shell_split(command) is None ==> r is Err,
        t.bounded && has_blocked(command) ==> r is Err,
        t.bounded && r is Ok && shell_split(command) is Some ==> t.allowed_commands@.contains(
            shell_split(command)->0[0],
        ),
{
    match shell_split(command) {
        Some(words) => law_command_is_run_iff(
            command,
            words,
            t.allowed_commands@,
            t.cwd is Some,
            resolutions(resolved@),
            texts(t.protected_paths@),
        ),
        None => law_command_is_run_iff(
            command,
            Seq::empty(),
            t.allowed_commands@,
            t.cwd is Some,
            resolutions(resolved@),
            texts(t.protected_paths@),
        ),
    }
}

/// A command that cannot be split, or that does not run `sed`, is run letter for letter.
/// One that runs `sed` without the flag is run with it.
pub proof fn law_command_is_run_as_written(command: Seq<char>, words: Seq<Seq<char>>)
    requires
        words.len() > 0,
    ensures
        shell_split(command) is None ==> hardened(command) == command,
        shell_split(command) == Some(words) ==> hardened(command) == (if words[0] == "sed"@ && !has_flag(words) {
            shell_join(seq![words[0], "--sandbox"@] + words.skip(1))
        } else {
            command
        }),
{
    law_only_sed_is_changed(words);
    if words[0] == "sed"@ && !has_flag(words) {
        let out = sandboxed(Some(words))->0;
        assert forall|i: int| 2 <= i < out.len() implies out[i] == words[i - 1] by {
            assert(out.skip(2)[i - 2] == words.skip(1)[i - 2]);
        }
        assert(out =~= seq![words[0], "--sandbox"@] + words.skip(1));
    }
}

/// The paths to resolve are those that the command mentions, one for one and in order; a
/// tool that is not held to a directory resolves none.
pub proof fn law_mentioned_paths_are_resolved(
    t: BashTool,
    args: Json,
    r: Vec<String>,
    command: Seq<char>,
    words: Seq<Seq<char>>,
    i: int,
)
    requires
        call_ensures(BashTool::words_to_resolve, (&t, &args), r),
        argument(args@, "command"@) == Some(command),
        shell_split(command) == Some(words),
        words.len() > 0,
    ensures
        !t.bounded || t.cwd is None ==> r@.len() == 0,
        t.bounded && t.cwd is Some ==> r@.len() == mentions(words[0], words.skip(1)).len(),
        t.bounded && t.cwd is Some && 0 <= i < r@.len() ==> r@[i]@ == mentions(words[0], words.skip(1))[i].path,
{
    assert(texts(r@).len() == r@.len());
    if 0 <= i < r@.len() {
        assert(texts(r@)[i] == r@[i]@);
    }
}

/// A short flag is read letter by letter up to the first that takes the rest of the word.
/// It names a file exactly where that letter is an `f` with something behind it, and the
/// file is all that stands there.
pub proof fn law_short_flag_names_its_file(exe: Seq<char>, word: Seq<char>, i: int)
    requires
        1 <= i < word.len(),
        forall|j: int| 1 <= j < i ==> !takes_rest(exe, #[trigger] word[j]),
        takes_rest(exe, word[i]),
        !begins(word, "--"@),
    ensures
        flag_value(exe, word) is Some <==> word[i] == 'f' && i < word.len() - 1,
        flag_value(exe, word) matches Some(file) ==> word == word.take(i + 1) + file,
{
    lemma_letters_are_passed(exe, word, 1, i);
    if flag_value(exe, word) is Some {
        assert(word =~= word.take(i + 1) + flag_value(exe, word)->0);
    }
}

proof fn lemma_letters_are_passed(exe: Seq<char>, word: Seq<char>, from: int, i: int)
    requires
        1 <= from <= i < word.len(),
        forall|j: int| from <= j < i ==> !takes_rest(exe, #[trigger] word[j]),
    ensures
        short_value(exe, word, from) == short_value(exe, word, i),
    decreases i - from,
{
    if from < i {
        assert(!takes_rest(exe, word[from]));
        lemma_letters_are_passed(exe, word, from + 1, i);
    }
}

/// Of the programs whose short flags are read, these letters take the rest of the word;
/// no letter of another program does.
pub proof fn law_letters_that_take_the_rest(exe: Seq<char>, c: char)
    ensures
        takes_rest("sed"@, c) <==> c == 'e' || c == 'f' || c == 'i' || c == 'l',
        takes_rest("grep"@, c) <==> 'A' <= c <= 'D' || c == 'X' || 'd' <= c <= 'f' || c == 'm',
        takes_rest("rg"@, c) <==> 'A' <= c <= 'C' || c == 'E' || c == 'M' || c == 'T' || 'd' <= c <= 'g' || c == 'j' || c
            == 'm' || c == 'r' || c == 't',
        exe != "sed"@ && exe != "grep"@ && exe != "rg"@ ==> !takes_rest(exe, c),
{
    reveal_strlit("sed");
    reveal_strlit("grep");
    reveal_strlit("rg");
    reveal_strlit("efil");
    reveal_strlit("ABCDXdefm");
    reveal_strlit("ABCEMTdefgjmrt");
    assert("sed"@.len() == 3 && "grep"@.len() == 4 && "rg"@.len() == 2);
    let s = "efil"@;
    assert(s =~= seq!['e', 'f', 'i', 'l']);
    assert(s[0] == 'e' && s[1] == 'f' && s[2] == 'i' && s[3] == 'l');
    let g = "ABCDXdefm"@;
    assert(g =~= seq!['A', 'B', 'C', 'D', 'X', 'd', 'e', 'f', 'm']);
    assert(g[0] == 'A' && g[1] == 'B' && g[2] == 'C' && g[3] == 'D' && g[4] == 'X' && g[5] == 'd' && g[6] == 'e' && g[7]
        == 'f' && g[8] == 'm');
    let r = "ABCEMTdefgjmrt"@;
    assert(r =~= seq!['A', 'B', 'C', 'E', 'M', 'T', 'd', 'e', 'f', 'g', 'j', 'm', 'r', 't']);
    assert(r[0] == 'A' && r[1] == 'B' && r[2] == 'C' && r[3] == 'E' && r[4] == 'M' && r[5] == 'T' && r[6] == 'd');
    assert(r[7] == 'e' && r[8] == 'f' && r[9] == 'g' && r[10] == 'j' && r[11] == 'm' && r[12] == 'r' && r[13] == 't');
}

} // verus!
