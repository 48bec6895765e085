//! The tool that lists files by a pattern.
use vstd::prelude::*;

use crate::json::{object4, text_value, Json, JsonView};
use crate::ordered::{ascending, in_order, law_ascending_is_unique, law_lookup_finds_first, lookup, NameSet};
use crate::path_text::{relative, relative_of};
use crate::schema::conforms;
use crate::text::{first_n, first_n_of, join, join_of, texts};
use super::{argument, bounded_note, describe, error_of, error_output, integer_property, integer_schema, is_positive, law_arguments_conform_iff, lemma_value_conforms, missing_argument, missing_argument_output, object_parameters, object_schema, positive_property, positive_schema, string_property, string_schema, text_argument, AgentTool, ToolSpec, ToolView};

verus! {

/// The tool that lists files by a pattern.
pub struct GlobTool {
    pub root: Option<String>,
    pub listing: ToolSpec,
}

/// What a call asks for.
pub struct GlobRequest {
    /// The pattern.
    pub pattern: String,
    /// The directory to search, where one is given.
    pub root: Option<String>,
}

/// A path that matched, resolved.
pub struct GlobEntry {
    pub path: String,
    pub is_dir: bool,
}

/// What came of the search.
pub enum GlobOutcome {
    /// The search failed; why, in words.
    Failed(String),
    /// What was found, and the directory that was searched.
    Found(String, Vec<GlobEntry>),
}

// ---------------------------------------------------------------------------
// Specifications
// ---------------------------------------------------------------------------

/// The schema of the arguments.
pub open spec fn glob_schema() -> JsonView {
    object_schema(
        JsonView::Object(
            seq![
                (
                    "include_dirs"@,
                    integer_schema("Set to 1 to include directories; 0/omitted to include only files."@),
                ),
                ("limit"@, positive_schema("Maximum number of results to return."@)),
                ("pattern"@, string_schema("Glob pattern (supports **)."@)),
                (
                    "root"@,
                    string_schema("Optional root directory for the search (default: current/bounded root)."@),
                ),
            ],
        ),
        seq![JsonView::Str("pattern"@)],
    )
}

/// What the tool is said to do.
pub open spec fn glob_profile(root: Option<String>) -> ToolView {
    ToolView {
        name: "glob"@,
        description: "List files matching a glob pattern (e.g. '**/*.py'). Returns newline-separated paths (relative to root when bounded)."@
            + bounded_note(root),
        parameters: glob_schema(),
        enabled: true,
    }
}

/// A path as seen from the directory that was searched, or as it is where it lies
/// outside of it.
pub open spec fn shown(path: Seq<char>, base: Seq<char>) -> Seq<char> {
    match relative_of(path, base) {
        Some(s) => s,
        None => path,
    }
}

/// An entry counts: it is a file, or directories are wanted.
pub open spec fn counts(e: GlobEntry, include_dirs: bool) -> bool {
    include_dirs || !e.is_dir
}

/// The paths that are listed.
pub open spec fn matched(base: Seq<char>, include_dirs: bool, entries: Seq<GlobEntry>) -> Set<Seq<char>>
    decreases entries.len(),
{
    if entries.len() == 0 {
        Set::empty()
    } else if counts(entries.last(), include_dirs) {
        matched(base, include_dirs, entries.drop_last()).insert(shown(entries.last().path@, base))
    } else {
        matched(base, include_dirs, entries.drop_last())
    }
}

/// Directories are wanted.
pub open spec fn wants_dirs(args: JsonView) -> bool {
    match args.get_i64("include_dirs"@) {
        Some(n) => n != 0,
        None => false,
    }
}

/// How many paths are listed at most.
pub open spec fn result_limit(args: JsonView) -> int {
    match args.get_i64("limit"@) {
        Some(n) => if n > 1 {
            n
        } else {
            1
        },
        None => 2000,
    }
}

/// What the tool answers, given what came of the search.
pub open spec fn glob_answer(args: JsonView, outcome: GlobOutcome) -> Seq<char> {
    match argument(args, "pattern"@) {
        None => missing_argument("pattern"@),
        Some(_) => match outcome {
            GlobOutcome::Failed(e) => error_of(e@),
            GlobOutcome::Found(base, entries) => join_of(
                first_n_of(in_order(matched(base@, wants_dirs(args), entries@)), result_limit(args) as nat),
                "\n"@,
            ),
        },
    }
}

// ---------------------------------------------------------------------------
// Functions
// ---------------------------------------------------------------------------

/// The paths that are listed.
fn collect(base: &str, include_dirs: bool, entries: &Vec<GlobEntry>) -> (r: NameSet)
    ensures
        r.wf(),
        r@ == matched(base@, include_dirs, entries@),
{
    let mut out = NameSet::new();
    assert(out@ =~= matched(base@, include_dirs, entries@.take(0)));
    for i in 0..entries.len()
        invariant
            out.wf(),
            out@ == matched(base@, include_dirs, entries@.take(i as int)),
    {
        proof {
            assert(entries@.take(i + 1).drop_last() =~= entries@.take(i as int));
            assert(entries@.take(i + 1).last() == entries@[i as int]);
        }
        if include_dirs || !entries[i].is_dir {
            let path = entries[i].path.as_str();
            let name = match relative(path, base) {
                Some(s) => s,
                None => String::from_str(path),
            };
            out.insert(name);
        }
    }
    assert(entries@.take(entries@.len() as int) =~= entries@);
    out
}

impl GlobTool {
    /// The tool, held to the directory `root` where one is given.
    pub fn new(root: Option<String>) -> (r: GlobTool)
        ensures
            r.root == root,
            r.profile() == glob_profile(root),
    {
        let description = describe(
            "List files matching a glob pattern (e.g. '**/*.py'). Returns newline-separated paths (relative to root when bounded).",
            &root,
        );
        let required = vec![text_value("pattern")];
        assert(crate::json::list_view(required@) =~= seq![JsonView::Str("pattern"@)]);
        let parameters = object_parameters(
            object4(
                "include_dirs",
                integer_property("Set to 1 to include directories; 0/omitted to include only files."),
                "limit",
                positive_property("Maximum number of results to return."),
                "pattern",
                string_property("Glob pattern (supports **)."),
                "root",
                string_property("Optional root directory for the search (default: current/bounded root)."),
            ),
            required,
        );
        GlobTool {
            root,
            listing: ToolSpec { name: String::from_str("glob"), description, parameters, enabled: true },
        }
    }

    /// What a call asks for, or how the call is answered without a pattern.
    pub fn wanted(args: &Json) -> (r: Result<GlobRequest, String>)
        ensures
            match r {
                Ok(q) => {
                    &&& argument(args@, "pattern"@) == Some(q.pattern@)
                    &&& match q.root {
                        Some(s) => args@.get_str("root"@) == Some(s@),
                        None => args@.get_str("root"@) is None,
                    }
                },
                Err(e) => argument(args@, "pattern"@) is None && e@ == missing_argument("pattern"@),
            },
    {
        match text_argument(args, "pattern") {
            Some(p) => {
                let root = match args.get_str("root") {
                    Some(s) => Some(String::from_str(s)),
                    None => None,
                };
                Ok(GlobRequest { pattern: String::from_str(p), root })
            },
            None => Err(missing_argument_output("pattern")),
        }
    }

    /// What the tool answers, given what came of the search.
    pub fn answer(args: &Json, outcome: &GlobOutcome) -> (r: String)
        ensures
            r@ == glob_answer(args@, *outcome),
    {
        if text_argument(args, "pattern").is_none() {
            return missing_argument_output("pattern");
        }
        match outcome {
            GlobOutcome::Failed(e) => error_output(e.as_str()),
            GlobOutcome::Found(base, entries) => {
                let include_dirs = match args.get_i64("include_dirs") {
                    Some(n) => n != 0,
                    None => false,
                };
                let limit: i64 = match args.get_i64("limit") {
                    Some(n) => if n > 1 {
                        n
                    } else {
                        1
                    },
                    None => 2000,
                };
                let names = collect(base.as_str(), include_dirs, entries);
                proof { names.lemma_listed(); }
                let all = names.to_list();
                assert(texts(all@).len() == all@.len());
                let most: usize = if (limit as u64) < all.len() as u64 { limit as usize } else { all.len() };
                join(&first_n(&all, most), "\n")
            },
        }
    }
}

impl AgentTool for GlobTool {
    open spec fn profile(&self) -> ToolView {
        self.listing@
    }

    fn name(&self) -> (r: &str) {
        self.listing.name.as_str()
    }

    fn description(&self) -> (r: &str) {
        self.listing.description.as_str()
    }

    fn parameters(&self) -> (r: &Json) {
        &self.listing.parameters
    }

    fn enabled(&self) -> (r: bool) {
        self.listing.enabled
    }

    fn set_enabled(&mut self, v: bool) {
        self.listing.enabled = v;
    }
}

// ---------------------------------------------------------------------------
// Laws
// ---------------------------------------------------------------------------

/// What is listed is what was found and counts, each path once: an entry that counts
/// is listed under the path that is shown for it, and nothing else is.
pub proof fn law_matched(base: Seq<char>, include_dirs: bool, entries: Seq<GlobEntry>, name: Seq<char>)
    ensures
        matched(base, include_dirs, entries).contains(name) <==> exists|i: int|
            0 <= i < entries.len() && counts(#[trigger] entries[i], include_dirs) && shown(entries[i].path@, base) == name,
    decreases entries.len(),
{
    if entries.len() > 0 {
        let rest = entries.drop_last();
        law_matched(base, include_dirs, rest, name);
        if matched(base, include_dirs, rest).contains(name) {
            let i = choose|i: int|
                0 <= i < rest.len() && counts(#[trigger] rest[i], include_dirs) && shown(rest[i].path@, base) == name;
            assert(entries[i] == rest[i]);
        }
        if exists|i: int|
            0 <= i < entries.len() && counts(#[trigger] entries[i], include_dirs) && shown(entries[i].path@, base) == name {
            let i = choose|i: int|
                0 <= i < entries.len() && counts(#[trigger] entries[i], include_dirs) && shown(entries[i].path@, base)
                    == name;
            if i < rest.len() {
                assert(rest[i] == entries[i]);
            }
        }
        if counts(entries.last(), include_dirs) && shown(entries.last().path@, base) == name {
            assert(counts(entries[entries.len() - 1], include_dirs));
        }
    }
}

/// The answer lists, line by line, the paths that were found, files alone unless
/// directories are asked for too, each path once, in order and as seen from where the
/// search began; no more than the limit, or than two thousand where none is given, and
/// no fewer where there are as many.
pub proof fn law_answer_lists_what_was_found(
    args: JsonView,
    base: String,
    entries: Vec<GlobEntry>,
    names: Seq<Seq<char>>,
    limit: int,
)
    requires
        args.get_str("pattern"@) matches Some(p) && p.len() > 0,
        ascending(names),
        forall|name: Seq<char>|
            names.contains(name) <==> exists|i: int|
                0 <= i < entries@.len() && (!(#[trigger] entries@[i]).is_dir || (args.get_i64("include_dirs"@) matches Some(
                    d,
                ) && d != 0)) && name == (match relative_of(entries@[i].path@, base@) {
                    Some(s) => s,
                    None => entries@[i].path@,
                }),
        args.get_i64("limit"@) == Some(limit) && limit >= 1 || args.get_i64("limit"@) is None && limit == 2000,
    ensures
        glob_answer(args, GlobOutcome::Found(base, entries)) == join_of(
            names.take(if names.len() < limit { names.len() as int } else { limit }),
            "\n"@,
        ),
{
    let dirs = wants_dirs(args);
    let set = matched(base@, dirs, entries@);
    assert forall|name: Seq<char>| set.contains(name) == names.to_set().contains(name) by {
        law_matched(base@, dirs, entries@, name);
        if set.contains(name) {
            let i = choose|i: int|
                0 <= i < entries@.len() && counts(#[trigger] entries@[i], dirs) && shown(entries@[i].path@, base@) == name;
            assert(!entries@[i].is_dir || dirs);
        }
        if names.contains(name) {
            let i = choose|i: int|
                0 <= i < entries@.len() && (!(#[trigger] entries@[i]).is_dir || (args.get_i64("include_dirs"@) matches Some(
                    d,
                ) && d != 0)) && name == (match relative_of(entries@[i].path@, base@) {
                    Some(s) => s,
                    None => entries@[i].path@,
                });
            assert(counts(entries@[i], dirs) && shown(entries@[i].path@, base@) == name);
        }
    }
    assert(names.to_set() =~= set);
    assert(ascending(names) && names.to_set() == set);
    let chosen = in_order(set);
    assert(ascending(chosen) && chosen.to_set() == set);
    law_ascending_is_unique(names, chosen);
    assert(names.take(names.len() as int) =~= names);
}

/// A call gives a pattern, and may give a directory as a text, a limit from one on and a
/// whole number for directories, and nothing else.
pub proof fn law_glob_call_conforms_iff(args: JsonView)
    ensures
        conforms(glob_schema(), args) <==> {
            &&& args is Object
            &&& args.get("pattern"@) is Some
            &&& forall|i: int| 0 <= i < args->Object_0.len() ==> glob_entry_is_sound(#[trigger] args->Object_0[i])
        },
{
    let properties = glob_schema_properties();
    let required = seq![JsonView::Str("pattern"@)];
    assert(glob_schema() == object_schema(JsonView::Object(properties), required));
    law_arguments_conform_iff(properties, required, args);
    assert(required[0] == JsonView::Str("pattern"@));
    if args is Object {
        let e = args->Object_0;
        assert forall|i: int| 0 <= i < e.len() implies glob_entry_is_sound(#[trigger] e[i]) == (lookup(
            properties,
            e[i].0,
        ) matches Some(sub) && conforms(sub, e[i].1)) by {
            lemma_glob_entry(e[i]);
        }
        if args.get("pattern"@) is Some {
            assert forall|i: int| 0 <= i < required.len() implies (#[trigger] required[i] matches JsonView::Str(k)
                ==> args.get(k) is Some) by {}
        }
    }
}

/// The properties of the schema.
spec fn glob_schema_properties() -> Seq<(Seq<char>, JsonView)> {
    seq![
        (
            "include_dirs"@,
            integer_schema("Set to 1 to include directories; 0/omitted to include only files."@),
        ),
        ("limit"@, positive_schema("Maximum number of results to return."@)),
        ("pattern"@, string_schema("Glob pattern (supports **)."@)),
        ("root"@, string_schema("Optional root directory for the search (default: current/bounded root)."@)),
    ]
}

/// The entry is one that a call may give.
pub open spec fn glob_entry_is_sound(e: (Seq<char>, JsonView)) -> bool {
    ||| (e.0 == "pattern"@ || e.0 == "root"@) && e.1 is Str
    ||| e.0 == "include_dirs"@ && (e.1.as_i64() is Some || e.1.as_u64() is Some)
    ||| e.0 == "limit"@ && is_positive(e.1)
}

proof fn lemma_glob_entry(e: (Seq<char>, JsonView))
    ensures
        glob_entry_is_sound(e) == (lookup(glob_schema_properties(), e.0) matches Some(sub) && conforms(sub, e.1)),
{
    let p = glob_schema_properties();
    reveal_strlit("include_dirs");
    reveal_strlit("limit");
    reveal_strlit("pattern");
    reveal_strlit("root");
    assert("include_dirs"@.len() == 12 && "limit"@.len() == 5 && "pattern"@.len() == 7 && "root"@.len() == 4);
    assert(p[0].0 == "include_dirs"@ && p[1].0 == "limit"@ && p[2].0 == "pattern"@ && p[3].0 == "root"@);
    lemma_value_conforms(p[0].1, e.1, "Set to 1 to include directories; 0/omitted to include only files."@);
    lemma_value_conforms(p[1].1, e.1, "Maximum number of results to return."@);
    lemma_value_conforms(p[2].1, e.1, "Glob pattern (supports **)."@);
    lemma_value_conforms(p[3].1, e.1, "Optional root directory for the search (default: current/bounded root)."@);
    if e.0 == "include_dirs"@ {
        law_lookup_finds_first(p, e.0, 0);
    } else if e.0 == "limit"@ {
        law_lookup_finds_first(p, e.0, 1);
    } else if e.0 == "pattern"@ {
        law_lookup_finds_first(p, e.0, 2);
    } else if e.0 == "root"@ {
        law_lookup_finds_first(p, e.0, 3);
    } else {
        law_lookup_finds_first(p, e.0, 4);
    }
}

/// A limit below one counts as one; a search that failed is answered with its error, and a
/// call without a pattern with what is missing.
pub proof fn law_other_answers(args: JsonView, outcome: GlobOutcome)
    ensures
        args.get_i64("limit"@) matches Some(n) && n < 1 ==> result_limit(args) == 1,
        argument(args, "pattern"@) is None ==> glob_answer(args, outcome) == missing_argument("pattern"@),
        argument(args, "pattern"@) is Some ==> (outcome matches GlobOutcome::Failed(e) ==> glob_answer(args, outcome)
            == error_of(e@)),
{
}

} // verus!
