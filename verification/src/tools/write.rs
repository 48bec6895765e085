//! The tool that writes a file.
use vstd::prelude::*;

use crate::json::{object2, text_value, Json, JsonView};
use crate::numbers::{decimal, decimal_text};
use crate::ordered::{law_lookup_finds_first, lookup};
use crate::path_text::{components_of, segments_of};
use crate::schema::conforms;
use crate::summary::is_error;
use crate::text::texts;
use super::{argument, bounded_note, law_arguments_conform_iff, lemma_value_conforms, describe, error_of, error_output, git_internal, is_git_internal, is_protected, is_protected_path, lemma_begins_with_error, missing_argument, missing_argument_output, object_parameters, object_schema, string_property, string_schema, text_argument, AgentTool, ToolSpec, ToolView};

verus! {

/// The tool that writes a file.
pub struct WriteTool {
    pub root: Option<String>,
    pub protected_paths: Vec<String>,
    pub listing: ToolSpec,
}

/// What a call asks for.
pub struct WriteRequest {
    pub path: String,
    pub content: String,
}

// ---------------------------------------------------------------------------
// Specifications
// ---------------------------------------------------------------------------

/// The schema of the arguments.
pub open spec fn write_schema() -> JsonView {
    object_schema(
        JsonView::Object(
            seq![
                ("content"@, string_schema("Full content to write."@)),
                ("path"@, string_schema("Path to write."@)),
            ],
        ),
        seq![JsonView::Str("path"@), JsonView::Str("content"@)],
    )
}

/// What the tool is said to do.
pub open spec fn write_profile(root: Option<String>) -> ToolView {
    ToolView {
        name: "write"@,
        description: "Write a file (create or overwrite)."@ + bounded_note(root),
        parameters: write_schema(),
        enabled: true,
    }
}

/// Why the file at a resolved path may not be written, if it may not.
pub open spec fn write_refusal(path: Seq<char>, protected: Seq<Seq<char>>) -> Option<Seq<char>> {
    if git_internal(path) {
        Some("Error: writing files under .git/ is not allowed"@)
    } else if is_protected(path, protected) {
        Some("Error: writing this file is not allowed"@)
    } else {
        None
    }
}

// ---------------------------------------------------------------------------
// Functions
// ---------------------------------------------------------------------------

impl WriteTool {
    /// The tool, held to the directory `root` where one is given.
    pub fn new(root: Option<String>) -> (r: WriteTool)
        ensures
            r.root == root,
            r.protected_paths@.len() == 0,
            r.profile() == write_profile(root),
    {
        let description = describe("Write a file (create or overwrite).", &root);
        let required = vec![text_value("path"), text_value("content")];
        assert(crate::json::list_view(required@) =~= seq![JsonView::Str("path"@), JsonView::Str("content"@)]);
        let parameters = object_parameters(
            object2(
                "content",
                string_property("Full content to write."),
                "path",
                string_property("Path to write."),
            ),
            required,
        );
        WriteTool {
            root,
            protected_paths: Vec::new(),
            listing: ToolSpec { name: String::from_str("write"), description, parameters, enabled: true },
        }
    }

    /// The tool with resolved paths that it may not write.
    pub fn with_protected_paths(self, protected_paths: Vec<String>) -> (r: WriteTool)
        ensures
            r.root == self.root,
            r.protected_paths == protected_paths,
            r.profile() == self.profile(),
    {
        WriteTool { root: self.root, protected_paths, listing: self.listing }
    }

    /// What a call asks for, or how the call is answered where an argument is missing.
    pub fn wanted(args: &Json) -> (r: Result<WriteRequest, String>)
        ensures
            match r {
                Ok(q) => argument(args@, "path"@) == Some(q.path@) && args@.get_str("content"@) == Some(q.content@),
                Err(e) => if argument(args@, "path"@) is None {
                    e@ == missing_argument("path"@)
                } else {
                    args@.get_str("content"@) is None && e@ == missing_argument("content"@)
                },
            },
    {
        match text_argument(args, "path") {
            Some(p) => match args.get_str("content") {
                Some(c) => Ok(WriteRequest { path: String::from_str(p), content: String::from_str(c) }),
                None => Err(missing_argument_output("content")),
            },
            None => Err(missing_argument_output("path")),
        }
    }

    /// Why the file at a resolved path may not be written, if it may not.
    pub fn refusal(&self, resolved: &str) -> (r: Option<String>)
        ensures
            match r {
                Some(e) => write_refusal(resolved@, texts(self.protected_paths@)) == Some(e@),
                None => write_refusal(resolved@, texts(self.protected_paths@)) is None,
            },
    {
        if is_git_internal(resolved) {
            Some(String::from_str("Error: writing files under .git/ is not allowed"))
        } else if is_protected_path(resolved, &self.protected_paths) {
            Some(String::from_str("Error: writing this file is not allowed"))
        } else {
            None
        }
    }

    /// The path that may be written, given what the path of a call resolves to, or how
    /// the call is answered where it may not.
    pub fn prepare(&self, resolved: &Result<String, String>) -> (r: Result<String, String>)
        ensures
            match *resolved {
                Err(e) => r matches Err(out) && out@ == error_of(e@),
                Ok(p) => match write_refusal(p@, texts(self.protected_paths@)) {
                    Some(refusal) => r matches Err(out) && out@ == refusal,
                    None => r matches Ok(q) && q@ == p@,
                },
            },
    {
        match resolved {
            Err(e) => Err(error_output(e.as_str())),
            Ok(p) => match self.refusal(p.as_str()) {
                Some(e) => Err(e),
                None => Ok(p.clone()),
            },
        }
    }

    /// How a call is answered once the content has been written.
    pub fn report(path: &str, content: &str) -> (r: String)
        ensures
            r@ == "Wrote "@ + path@ + " ("@ + decimal(content.len() as nat) + " bytes)"@,
    {
        let mut out = String::from_str("Wrote ");
        out.append(path);
        out.append(" (");
        out.append(decimal_text(content.len() as u64).as_str());
        out.append(" bytes)");
        out
    }
}

impl AgentTool for WriteTool {
    open spec fn profile(&self) -> ToolView {
        self.listing@
    }

    fn name(&self) -> (r: &str) {
        self.listing.name.as_str()
    }

    fn description(&self) -> (r: &str) {
        self.listing.description.as_str()
    }

    fn parameters(&self) -> (r: &Json) {
        &self.listing.parameters
    }

    fn enabled(&self) -> (r: bool) {
        self.listing.enabled
    }

    fn set_enabled(&mut self, v: bool) {
        self.listing.enabled = v;
    }
}

// ---------------------------------------------------------------------------
// Laws
// ---------------------------------------------------------------------------

/// Every answer to a call that may not write is told to be an error.
pub proof fn law_refused_write_is_error(path: Seq<char>, protected: Seq<Seq<char>>)
    ensures
        write_refusal(path, protected) matches Some(e) ==> is_error(e),
{
    reveal_strlit("Error: writing files under .git/ is not allowed");
    reveal_strlit("Error: writing this file is not allowed");
    if let Some(e) = write_refusal(path, protected) {
        lemma_begins_with_error(e);
    }
}

/// A file is refused exactly where a component of its path is `.git`, or its path has
/// the components of a protected one.
pub proof fn law_write_is_refused_iff_kept(path: Seq<char>, protected: Seq<Seq<char>>)
    ensures
        write_refusal(path, protected) is Some <==> segments_of(path).contains(".git"@) || exists|i: int|
            0 <= i < protected.len() && components_of(#[trigger] protected[i]) == components_of(path),
{
}

/// A call gives a path and a content, both as texts, and nothing else.
pub proof fn law_write_call_conforms_iff(args: JsonView)
    ensures
        conforms(write_schema(), args) <==> {
            &&& args is Object
            &&& args.get("path"@) is Some
            &&& args.get("content"@) is Some
            &&& forall|i: int|
                0 <= i < args->Object_0.len() ==> ((#[trigger] args->Object_0[i]).0 == "path"@ || args->Object_0[i].0
                    == "content"@) && args->Object_0[i].1 is Str
        },
{
    let properties = seq![
        ("content"@, string_schema("Full content to write."@)),
        ("path"@, string_schema("Path to write."@)),
    ];
    let required = seq![JsonView::Str("path"@), JsonView::Str("content"@)];
    assert(write_schema() == object_schema(JsonView::Object(properties), required));
    law_arguments_conform_iff(properties, required, args);
    assert(required[0] == JsonView::Str("path"@) && required[1] == JsonView::Str("content"@));
    reveal_strlit("path");
    reveal_strlit("content");
    assert("path"@.len() == 4 && "content"@.len() == 7);
    if args is Object {
        let e = args->Object_0;
        assert forall|i: int| 0 <= i < e.len() implies (((#[trigger] e[i]).0 == "path"@ || e[i].0 == "content"@)
            && e[i].1 is Str) == (lookup(properties, e[i].0) matches Some(sub) && conforms(sub, e[i].1)) by {
            lemma_value_conforms(properties[0].1, e[i].1, "Full content to write."@);
            lemma_value_conforms(properties[1].1, e[i].1, "Path to write."@);
            if e[i].0 == "content"@ {
                law_lookup_finds_first(properties, e[i].0, 0);
            } else if e[i].0 == "path"@ {
                law_lookup_finds_first(properties, e[i].0, 1);
            } else {
                law_lookup_finds_first(properties, e[i].0, 2);
            }
        }
        if args.get("path"@) is Some && args.get("content"@) is Some {
            assert forall|i: int| 0 <= i < required.len() implies (#[trigger] required[i] matches JsonView::Str(k)
                ==> args.get(k) is Some) by {}
        }
    }
}

} // verus!
