//! The tool that replaces texts in a file.
use vstd::prelude::*;

use crate::json::{array, list_view, number_value, object1, object2, object4, object6, text_value, whole, Json, JsonView};
use crate::json_codec::{indented, indented_text};
use crate::numbers::{decimal, decimal_text};
use crate::ordered::{law_lookup_finds_first, lookup};
use crate::std_text::{quote, quoted};
use crate::path_text::{components_of, segments_of};
use crate::schema::conforms;
use crate::summary::is_error;
use crate::text::{chars_of, count_matches, count_of, find, find_of, lemma_find, lemma_replace_absent, occurs_at, replace, replace_of, text_of, texts};
use super::{argument, bounded_note, describe, error_of, error_output, git_internal, is_git_internal, is_protected, is_protected_path, law_arguments_conform_iff, law_error_is_told, lemma_begins_with_error, lemma_value_conforms, missing_argument, missing_argument_output, object_parameters, object_schema, string_property, string_schema, text_argument, AgentTool, ToolSpec, ToolView};

verus! {

/// The tool that replaces texts in a file.
pub struct EditTool {
    pub root: Option<String>,
    pub protected_paths: Vec<String>,
    pub listing: ToolSpec,
}

/// What came of looking for the file to edit.
pub enum EditTarget {
    /// The path leads nowhere the tool may go; why, in words.
    Unresolved(String),
    /// There is nothing at this path.
    Missing(String),
    /// There is something else than a file at this path.
    NotFile(String),
    /// Reading the file at this path failed; why, in words.
    Failed(String, String),
    /// The file at this path holds this text.
    Found(String, String),
}

/// What became of a file under its edits.
pub struct EditDone {
    /// What the file is to hold.
    pub after: String,
    /// How the call is answered once the file has been written.
    pub report: String,
}

// ---------------------------------------------------------------------------
// Specifications
// ---------------------------------------------------------------------------

/// The schema of a text that needs no explanation.
pub open spec fn plain_string() -> JsonView {
    JsonView::Object(seq![("type"@, JsonView::Str("string"@))])
}

/// The schema of the list of edits.
pub open spec fn edits_schema() -> JsonView {
    JsonView::Object(
        seq![
            ("description"@, JsonView::Str("List of replacements."@)),
            (
                "items"@,
                object_schema(
                    JsonView::Object(seq![("newText"@, plain_string()), ("oldText"@, plain_string())]),
                    seq![JsonView::Str("oldText"@), JsonView::Str("newText"@)],
                ),
            ),
            ("minItems"@, whole(1)),
            ("type"@, JsonView::Str("array"@)),
        ],
    )
}

/// The schema of the arguments.
pub open spec fn edit_schema() -> JsonView {
    object_schema(
        JsonView::Object(
            seq![("edits"@, edits_schema()), ("path"@, string_schema("Path to the file to edit."@))],
        ),
        seq![JsonView::Str("path"@), JsonView::Str("edits"@)],
    )
}

/// What the tool is said to do.
pub open spec fn edit_profile(root: Option<String>) -> ToolView {
    ToolView {
        name: "edit"@,
        description: "Edit a file using exact text replacements (all oldText must match exactly once)."@
            + bounded_note(root),
        parameters: edit_schema(),
        enabled: true,
    }
}

/// The edits of a call, where there are any.
pub open spec fn edits_argument(args: JsonView) -> Option<Seq<JsonView>> {
    match args.get_array("edits"@) {
        Some(a) => if a.len() > 0 {
            Some(a)
        } else {
            None
        },
        None => None,
    }
}

/// Why the file at a resolved path may not be edited, if it may not.
pub open spec fn edit_refusal(path: Seq<char>, protected: Seq<Seq<char>>) -> Option<Seq<char>> {
    if git_internal(path) {
        Some("Error: editing files under .git/ is not allowed"@)
    } else if is_protected(path, protected) {
        Some("Error: editing this file is not allowed"@)
    } else {
        None
    }
}

/// The path that was looked at, where there is one.
pub open spec fn target_path(t: EditTarget) -> Option<Seq<char>> {
    match t {
        EditTarget::Unresolved(_) => None,
        EditTarget::Missing(p) => Some(p@),
        EditTarget::NotFile(p) => Some(p@),
        EditTarget::Failed(p, _) => Some(p@),
        EditTarget::Found(p, _) => Some(p@),
    }
}

/// How a call is answered where there is no file that may be edited.
pub open spec fn target_fault(t: EditTarget, protected: Seq<Seq<char>>) -> Option<Seq<char>> {
    let refusal = match target_path(t) {
        Some(p) => edit_refusal(p, protected),
        None => None,
    };
    match t {
        EditTarget::Unresolved(e) => Some(error_of(e@)),
        _ if refusal is Some => refusal,
        EditTarget::Missing(p) => Some(error_of("file not found: "@ + p@)),
        EditTarget::NotFile(p) => Some(error_of("not a file: "@ + p@)),
        EditTarget::Failed(_, e) => Some(error_of(e@)),
        EditTarget::Found(..) => None,
    }
}

/// The text that an edit replaces.
pub open spec fn old_text(edit: JsonView) -> Seq<char> {
    edit.text_at("oldText"@)
}

/// The text that an edit puts in its place.
pub open spec fn new_text(edit: JsonView) -> Seq<char> {
    edit.text_at("newText"@)
}

/// The first thing that is wrong with the edits, if anything is: one of them lacks a
/// text, or its old text does not occur exactly once in the content.
pub open spec fn edits_fault(content: Seq<char>, edits: Seq<JsonView>) -> Option<Seq<char>>
    decreases edits.len(),
{
    if edits.len() == 0 {
        None
    } else {
        match (edits[0].get_str("oldText"@), edits[0].get_str("newText"@)) {
            (Some(old), Some(_)) => if count_of(content, old) != 1 {
                Some(
                    "Error: oldText must match exactly once; found "@ + decimal(count_of(content, old))
                        + " matches for: "@ + quoted(old),
                )
            } else {
                edits_fault(content, edits.skip(1))
            },
            _ => Some("Error: each edit must include oldText and newText"@),
        }
    }
}

/// The content once the edits have been made, one after the other.
pub open spec fn edited(content: Seq<char>, edits: Seq<JsonView>) -> Seq<char>
    decreases edits.len(),
{
    if edits.len() == 0 {
        content
    } else {
        replace_of(edited(content, edits.drop_last()), old_text(edits.last()), new_text(edits.last()))
    }
}

/// The characters `start..end` of a text with up to `context` more on either side;
/// an ellipsis stands for what is left out.
pub open spec fn snippet_of(text: Seq<char>, start: int, end: int, context: int) -> Seq<char> {
    let left = if start > context { start - context } else { 0 };
    let right = if end + context < text.len() { end + context } else { text.len() as int };
    (if left > 0 { "…"@ } else { ""@ }) + text.subrange(left, right) + (if right < text.len() { "…"@ } else { ""@ })
}

/// A text and what stands around it.
pub open spec fn around(text: Seq<char>, part: Seq<char>, otherwise: Seq<char>) -> Seq<char> {
    match find_of(text, part) {
        Some(i) => snippet_of(text, i, i + part.len(), 80),
        None => otherwise,
    }
}

/// What is reported of one edit.
pub open spec fn edit_report(index: int, edit: JsonView, before: Seq<char>, after: Seq<char>) -> JsonView {
    JsonView::Object(
        seq![
            ("after_snippet"@, JsonView::Str(around(after, new_text(edit), "(newText not found after write)"@))),
            ("before_snippet"@, JsonView::Str(around(before, old_text(edit), ""@))),
            ("index"@, whole(index)),
            ("match_count"@, whole(1)),
            ("new_len"@, whole(new_text(edit).len() as int)),
            ("old_len"@, whole(old_text(edit).len() as int)),
        ],
    )
}

/// What is reported of all edits.
pub open spec fn edits_report(path: Seq<char>, edits: Seq<JsonView>, before: Seq<char>, after: Seq<char>) -> JsonView {
    JsonView::Object(
        seq![
            ("applied"@, whole(edits.len() as int)),
            ("ok"@, JsonView::Bool(true)),
            ("path"@, JsonView::Str(path)),
            (
                "replacements"@,
                JsonView::Array(Seq::new(edits.len(), |i: int| edit_report(i, edits[i], before, after))),
            ),
        ],
    )
}

/// What comes of edits: what the file is to hold and the answer, or the answer where
/// an edit cannot be made.
pub open spec fn applied(
    path: Seq<char>,
    content: Seq<char>,
    edits: Seq<JsonView>,
    r: Result<EditDone, String>,
) -> bool {
    match edits_fault(content, edits) {
        Some(fault) => r matches Err(e) && e@ == fault,
        None => {
            &&& r is Ok
            &&& r->Ok_0.after@ == edited(content, edits)
            &&& r->Ok_0.report@ == indented(edits_report(path, edits, content, edited(content, edits)))
        },
    }
}

// ---------------------------------------------------------------------------
// Functions
// ---------------------------------------------------------------------------

/// The first thing that is wrong with the edits, if anything is.
fn find_fault(content: &str, edits: &Vec<Json>) -> (r: Option<String>)
    requires
        content@.len() < usize::MAX,
    ensures
        match r {
            Some(e) => edits_fault(content@, list_view(edits@)) == Some(e@),
            None => edits_fault(content@, list_view(edits@)) is None,
        },
{
    let ghost all = list_view(edits@);
    assert(all.skip(0) =~= all);
    for i in 0..edits.len()
        invariant
            content@.len() < usize::MAX,
            all == list_view(edits@),
            edits_fault(content@, all) == edits_fault(content@, all.skip(i as int)),
    {
        proof {
            assert(all.skip(i as int)[0] == edits@[i as int]@);
            assert(all.skip(i as int).skip(1) =~= all.skip(i + 1));
        }
        match (edits[i].get_str("oldText"), edits[i].get_str("newText")) {
            (Some(old), Some(_)) => {
                let n = count_matches(content, old);
                if n != 1 {
                    let mut out = String::from_str("Error: oldText must match exactly once; found ");
                    out.append(decimal_text(n as u64).as_str());
                    out.append(" matches for: ");
                    out.append(quote(old).as_str());
                    return Some(out);
                }
            },
            _ => {
                return Some(String::from_str("Error: each edit must include oldText and newText"));
            },
        }
    }
    assert(all.skip(edits@.len() as int) =~= Seq::empty());
    None
}

/// The content once the edits have been made, one after the other.
fn make_edits(content: &str, edits: &Vec<Json>) -> (r: String)
    ensures
        r@ == edited(content@, list_view(edits@)),
{
    let ghost all = list_view(edits@);
    let mut out = String::from_str(content);
    for i in 0..edits.len()
        invariant
            all == list_view(edits@),
            out@ == edited(content@, all.take(i as int)),
    {
        proof {
            assert(all.take(i + 1).drop_last() =~= all.take(i as int));
            assert(all.take(i + 1).last() == edits@[i as int]@);
        }
        let old = edits[i].text_at("oldText");
        let new = edits[i].text_at("newText");
        out = replace(out.as_str(), old.as_str(), new.as_str());
    }
    assert(all.take(edits@.len() as int) =~= all);
    out
}

/// The characters `start..end` of a text with up to `context` more on either side.
pub fn snippet(text: &str, start: usize, end: usize, context: usize) -> (r: String)
    requires
        start <= end <= text@.len(),
    ensures
        r@ == snippet_of(text@, start as int, end as int, context as int),
{
    let v = chars_of(text);
    let n = v.len();
    let left = if start > context { start - context } else { 0 };
    let right = if n - end > context { end + context } else { n };
    let mut out = String::from_str(if left > 0 { "…" } else { "" });
    out.append(text_of(&v, left, right).as_str());
    out.append(if right < n { "…" } else { "" });
    out
}

/// A text and what stands around it.
fn snippet_around(text: &str, part: &str, otherwise: &str) -> (r: String)
    ensures
        r@ == around(text@, part@, otherwise@),
{
    proof { lemma_find(text@, part@); }
    match find(text, part) {
        Some(i) => {
            let end = text.unicode_len();
            let n = part.unicode_len();
            assert(i + n <= end);
            snippet(text, i, i + n, 80)
        },
        None => String::from_str(otherwise),
    }
}

/// What is reported of one edit.
fn report_one(index: usize, edit: &Json, before: &str, after: &str) -> (r: Json)
    ensures
        r@ == edit_report(index as int, edit@, before@, after@),
{
    let old = edit.text_at("oldText");
    let new = edit.text_at("newText");
    object6(
        "after_snippet",
        Json::Str(snippet_around(after, new.as_str(), "(newText not found after write)")),
        "before_snippet",
        Json::Str(snippet_around(before, old.as_str(), "")),
        "index",
        number_value(index as u64),
        "match_count",
        number_value(1),
        "new_len",
        number_value(new.as_str().unicode_len() as u64),
        "old_len",
        number_value(old.as_str().unicode_len() as u64),
    )
}

/// What is reported of all edits.
fn report_all(path: &str, edits: &Vec<Json>, before: &str, after: &str) -> (r: Json)
    ensures
        r@ == edits_report(path@, list_view(edits@), before@, after@),
{
    let ghost all = list_view(edits@);
    let mut rows: Vec<Json> = Vec::new();
    for i in 0..edits.len()
        invariant
            all == list_view(edits@),
            rows@.len() == i,
            forall|k: int| 0 <= k < i ==> (#[trigger] rows@[k])@ == edit_report(k, all[k], before@, after@),
    {
        rows.push(report_one(i, &edits[i], before, after));
    }
    assert(list_view(rows@) =~= Seq::new(all.len(), |i: int| edit_report(i, all[i], before@, after@)));
    object4(
        "applied",
        number_value(edits.len() as u64),
        "ok",
        Json::Bool(true),
        "path",
        text_value(path),
        "replacements",
        array(rows),
    )
}

/// The schema of the list of edits.
fn edits_parameters() -> (r: Json)
    ensures
        r@ == edits_schema(),
{
    let required = vec![text_value("oldText"), text_value("newText")];
    assert(list_view(required@) =~= seq![JsonView::Str("oldText"@), JsonView::Str("newText"@)]);
    object4(
        "description",
        text_value("List of replacements."),
        "items",
        object_parameters(
            object2(
                "newText",
                object1("type", text_value("string")),
                "oldText",
                object1("type", text_value("string")),
            ),
            required,
        ),
        "minItems",
        number_value(1),
        "type",
        text_value("array"),
    )
}

impl EditTool {
    /// The tool, held to the directory `root` where one is given.
    pub fn new(root: Option<String>) -> (r: EditTool)
        ensures
            r.root == root,
            r.protected_paths@.len() == 0,
            r.profile() == edit_profile(root),
    {
        let description = describe(
            "Edit a file using exact text replacements (all oldText must match exactly once).",
            &root,
        );
        let required = vec![text_value("path"), text_value("edits")];
        assert(list_view(required@) =~= seq![JsonView::Str("path"@), JsonView::Str("edits"@)]);
        let parameters = object_parameters(
            object2("edits", edits_parameters(), "path", string_property("Path to the file to edit.")),
            required,
        );
        EditTool {
            root,
            protected_paths: Vec::new(),
            listing: ToolSpec { name: String::from_str("edit"), description, parameters, enabled: true },
        }
    }

    /// The tool with resolved paths that it may not edit.
    pub fn with_protected_paths(self, protected_paths: Vec<String>) -> (r: EditTool)
        ensures
            r.root == self.root,
            r.protected_paths == protected_paths,
            r.profile() == self.profile(),
    {
        EditTool { root: self.root, protected_paths, listing: self.listing }
    }

    /// The path that a call asks for, or how the call is answered where an argument
    /// is missing.
    pub fn wanted(args: &Json) -> (r: Result<String, String>)
        ensures
            match r {
                Ok(p) => argument(args@, "path"@) == Some(p@) && edits_argument(args@) is Some,
                Err(e) => if argument(args@, "path"@) is None {
                    e@ == missing_argument("path"@)
                } else {
                    edits_argument(args@) is None && e@ == missing_argument("edits"@)
                },
            },
    {
        match text_argument(args, "path") {
            Some(p) => match args.get_array("edits") {
                Some(a) => {
                    assert(list_view(a@).len() == a@.len());
                    if a.len() > 0 {
                        Ok(String::from_str(p))
                    } else {
                        Err(missing_argument_output("edits"))
                    }
                },
                None => Err(missing_argument_output("edits")),
            },
            None => Err(missing_argument_output("path")),
        }
    }

    /// Why the file at a resolved path may not be edited, if it may not.
    pub fn refusal(&self, resolved: &str) -> (r: Option<String>)
        ensures
            match r {
                Some(e) => edit_refusal(resolved@, texts(self.protected_paths@)) == Some(e@),
                None => edit_refusal(resolved@, texts(self.protected_paths@)) is None,
            },
    {
        if is_git_internal(resolved) {
            Some(String::from_str("Error: editing files under .git/ is not allowed"))
        } else if is_protected_path(resolved, &self.protected_paths) {
            Some(String::from_str("Error: editing this file is not allowed"))
        } else {
            None
        }
    }

    /// How a call is answered where there is no file that may be edited.
    fn fault_of(&self, target: &EditTarget) -> (r: Option<String>)
        ensures
            match r {
                Some(e) => target_fault(*target, texts(self.protected_paths@)) == Some(e@),
                None => target_fault(*target, texts(self.protected_paths@)) is None,
            },
    {
        let path = match target {
            EditTarget::Unresolved(e) => {
                return Some(error_output(e.as_str()));
            },
            EditTarget::Missing(p) => p,
            EditTarget::NotFile(p) => p,
            EditTarget::Failed(p, _) => p,
            EditTarget::Found(p, _) => p,
        };
        if let Some(refusal) = self.refusal(path.as_str()) {
            return Some(refusal);
        }
        match target {
            EditTarget::Missing(p) => {
                let mut text = String::from_str("file not found: ");
                text.append(p.as_str());
                Some(error_output(text.as_str()))
            },
            EditTarget::NotFile(p) => {
                let mut text = String::from_str("not a file: ");
                text.append(p.as_str());
                Some(error_output(text.as_str()))
            },
            EditTarget::Failed(_, e) => Some(error_output(e.as_str())),
            _ => None,
        }
    }

    /// What a call makes of the file that it asks for, or how it is answered where the
    /// file is not changed.
    pub fn prepare(&self, args: &Json, target: &EditTarget) -> (r: Result<EditDone, String>)
        requires
            target matches EditTarget::Found(_, content) ==> content@.len() < usize::MAX,
        ensures
            match (argument(args@, "path"@), edits_argument(args@), target_fault(*target, texts(self.protected_paths@))) {
                (None, _, _) => r matches Err(e) && e@ == missing_argument("path"@),
                (Some(_), None, _) => r matches Err(e) && e@ == missing_argument("edits"@),
                (Some(_), Some(_), Some(fault)) => r matches Err(e) && e@ == fault,
                (Some(_), Some(edits), None) => {
                    &&& target is Found
                    &&& applied(target->Found_0@, target->Found_1@, edits, r)
                },
            },
    {
        if let Err(e) = EditTool::wanted(args) {
            return Err(e);
        }
        if let Some(fault) = self.fault_of(target) {
            return Err(fault);
        }
        match target {
            EditTarget::Found(path, content) => EditTool::apply(path.as_str(), content.as_str(), args),
            _ => Err(String::new()),
        }
    }

    /// What the file at `path` is to hold under the edits of a call, and how the call
    /// is then answered; or how it is answered where an edit cannot be made.
    pub fn apply(path: &str, content: &str, args: &Json) -> (r: Result<EditDone, String>)
        requires
            content@.len() < usize::MAX,
        ensures
            match edits_argument(args@) {
                None => r matches Err(e) && e@ == missing_argument("edits"@),
                Some(edits) => applied(path@, content@, edits, r),
            },
    {
        let edits = match args.get_array("edits") {
            Some(a) => a,
            None => {
                return Err(missing_argument_output("edits"));
            },
        };
        assert(list_view(edits@).len() == edits@.len());
        if edits.len() == 0 {
            return Err(missing_argument_output("edits"));
        }
        if let Some(fault) = find_fault(content, edits) {
            return Err(fault);
        }
        let after = make_edits(content, edits);
        let report = indented_text(&report_all(path, edits, content, after.as_str()));
        Ok(EditDone { after, report })
    }
}

impl AgentTool for EditTool {
    open spec fn profile(&self) -> ToolView {
        self.listing@
    }

    fn name(&self) -> (r: &str) {
        self.listing.name.as_str()
    }

    fn description(&self) -> (r: &str) {
        self.listing.description.as_str()
    }

    fn parameters(&self) -> (r: &Json) {
        &self.listing.parameters
    }

    fn enabled(&self) -> (r: bool) {
        self.listing.enabled
    }

    fn set_enabled(&mut self, v: bool) {
        self.listing.enabled = v;
    }
}

// ---------------------------------------------------------------------------
// Laws
// ---------------------------------------------------------------------------

/// One edit whose old text occurs exactly once changes that occurrence and nothing
/// else.
pub proof fn law_single_edit_is_local(content: Seq<char>, edit: JsonView, i: int)
    requires
        edits_fault(content, seq![edit]) is None,
        old_text(edit).len() > 0,
        find_of(content, old_text(edit)) == Some(i),
    ensures
        edited(content, seq![edit]) == content.take(i) + new_text(edit) + content.skip(i + old_text(edit).len()),
{
    let old = old_text(edit);
    lemma_find(content, old);
    let edits = seq![edit];
    assert(edits[0] == edit);
    assert(edits.last() == edit);
    assert(edits.drop_last() =~= Seq::empty());
    assert(edited(content, edits.drop_last()) == content);
    let rest = content.skip(i + old.len());
    assert(count_of(content, old) == 1);
    assert(count_of(rest, old) == 0);
    match find_of(rest, old) {
        Some(k) => {
            lemma_find(rest, old);
            assert(count_of(rest, old) >= 1);
        },
        None => {},
    }
    lemma_replace_absent(rest, old, new_text(edit));
}

/// Where no edit is faulty, the old text of each stands in the content, and nowhere
/// twice.
pub proof fn law_accepted_edits_occur_once(content: Seq<char>, edits: Seq<JsonView>, k: int)
    requires
        edits_fault(content, edits) is None,
        0 <= k < edits.len(),
    ensures
        count_of(content, old_text(edits[k])) == 1,
    decreases edits.len(),
{
    if k > 0 {
        law_accepted_edits_occur_once(content, edits.skip(1), k - 1);
        assert(edits.skip(1)[k - 1] == edits[k]);
    }
}

/// Every answer to a call that changes nothing is told to be an error.
pub proof fn law_refused_edit_is_error(
    path: Seq<char>,
    protected: Seq<Seq<char>>,
    content: Seq<char>,
    edits: Seq<JsonView>,
    target: EditTarget,
)
    ensures
        edit_refusal(path, protected) matches Some(e) ==> is_error(e),
        edits_fault(content, edits) matches Some(e) ==> is_error(e),
        target_fault(target, protected) matches Some(e) ==> is_error(e),
    decreases edits.len(),
{
    reveal_strlit("Error: editing files under .git/ is not allowed");
    reveal_strlit("Error: editing this file is not allowed");
    reveal_strlit("Error: oldText must match exactly once; found ");
    reveal_strlit("Error: each edit must include oldText and newText");
    if let Some(e) = edit_refusal(path, protected) {
        lemma_begins_with_error(e);
    }
    if let Some(p) = target_path(target) {
        if let Some(e) = edit_refusal(p, protected) {
            lemma_begins_with_error(e);
        }
    }
    match target {
        EditTarget::Unresolved(e) => law_error_is_told(e@, Seq::empty()),
        EditTarget::Missing(p) => law_error_is_told("file not found: "@ + p@, Seq::empty()),
        EditTarget::NotFile(p) => law_error_is_told("not a file: "@ + p@, Seq::empty()),
        EditTarget::Failed(_, e) => law_error_is_told(e@, Seq::empty()),
        EditTarget::Found(..) => {},
    }
    if edits.len() > 0 {
        law_refused_edit_is_error(path, protected, content, edits.skip(1), target);
        let (old, new) = (edits[0].get_str("oldText"@), edits[0].get_str("newText"@));
        if old is None || new is None || count_of(content, old->0) != 1 {
            lemma_begins_with_error(edits_fault(content, edits)->0);
        }
    }
}

/// Every edit is made, one after the other, however many there are: making two lists of
/// edits makes the second on what comes of the first, one edit replaces its old text
/// wherever it stands, and no edit changes nothing.
pub proof fn law_every_edit_is_made(content: Seq<char>, a: Seq<JsonView>, b: Seq<JsonView>, edit: JsonView)
    ensures
        edited(content, a + b) == edited(edited(content, a), b),
        edited(content, seq![edit]) == replace_of(content, edit.text_at("oldText"@), edit.text_at("newText"@)),
        edited(content, Seq::empty()) == content,
    decreases b.len(),
{
    assert(seq![edit].drop_last() =~= Seq::empty());
    assert(edited(content, seq![edit].drop_last()) == content);
    if b.len() == 0 {
        assert(a + b =~= a);
    } else {
        assert((a + b).drop_last() =~= a + b.drop_last());
        law_every_edit_is_made(content, a, b.drop_last(), edit);
    }
}

/// The text stands in the content at one place at most.
pub open spec fn stands_once(content: Seq<char>, text: Seq<char>) -> bool {
    forall|i: int, j: int|
        #[trigger] occurs_at(content, text, i) && #[trigger] occurs_at(content, text, j) ==> i == j
}

/// A content in which the old texts of edits stand one behind the other, with gaps
/// around them, once the first `made` of the edits have been made.
pub open spec fn places(gaps: Seq<Seq<char>>, edits: Seq<JsonView>, made: int) -> Seq<char>
    recommends
        gaps.len() == edits.len() + 1,
    decreases edits.len(),
{
    if edits.len() == 0 {
        gaps[0]
    } else {
        let n = edits.len() as int;
        places(gaps, edits.drop_last(), made) + (if n <= made {
            new_text(edits.last())
        } else {
            old_text(edits.last())
        }) + gaps[n]
    }
}

/// Where the old texts stand one behind the other in the content, and each stands
/// nowhere else when its turn comes, the content comes out with each of them replaced
/// by its new text and nothing else changed.
pub proof fn law_edits_change_their_places(gaps: Seq<Seq<char>>, edits: Seq<JsonView>, upto: int)
    requires
        gaps.len() == edits.len() + 1,
        0 <= upto <= edits.len(),
        forall|k: int| 0 <= k < edits.len() ==> old_text(#[trigger] edits[k]).len() > 0,
        forall|k: int|
            0 <= k < edits.len() ==> stands_once(places(gaps, edits, k), old_text(#[trigger] edits[k])),
    ensures
        edited(places(gaps, edits, 0), edits.take(upto)) == places(gaps, edits, upto),
    decreases upto,
{
    if upto == 0 {
        assert(edits.take(0) =~= Seq::empty());
    } else {
        law_edits_change_their_places(gaps, edits, upto - 1);
        assert(edits.take(upto).drop_last() =~= edits.take(upto - 1));
        assert(edits.take(upto).last() == edits[upto - 1]);
        let before = places(gaps, edits, upto - 1);
        let old = old_text(edits[upto - 1]);
        let new = new_text(edits[upto - 1]);
        lemma_place(gaps, edits, upto - 1, edits.len() as int);
        let front = places(gaps, edits.take(upto - 1), upto - 1);
        let back = rest_of(gaps, edits, upto - 1, edits.len() as int);
        assert(edits.take(edits.len() as int) =~= edits);
        assert(before == front + old + back);
        assert(places(gaps, edits, upto) == front + new + back);
        assert(old_text(edits[upto - 1]).len() > 0);
        lemma_replace_once(front, old, back, new);
    }
}

/// What stands behind the old text of the `k`th edit, up to the `n`th.
spec fn rest_of(gaps: Seq<Seq<char>>, edits: Seq<JsonView>, k: int, n: int) -> Seq<char>
    decreases n - k,
{
    if n <= k + 1 {
        gaps[k + 1]
    } else {
        rest_of(gaps, edits, k, n - 1) + old_text(edits[n - 1]) + gaps[n]
    }
}

proof fn lemma_place(gaps: Seq<Seq<char>>, edits: Seq<JsonView>, k: int, n: int)
    requires
        0 <= k < n <= edits.len(),
        gaps.len() == edits.len() + 1,
    ensures
        places(gaps, edits.take(n), k) == places(gaps, edits.take(k), k) + old_text(edits[k]) + rest_of(gaps, edits, k, n),
        places(gaps, edits.take(n), k + 1) == places(gaps, edits.take(k), k) + new_text(edits[k]) + rest_of(
            gaps,
            edits,
            k,
            n,
        ),
    decreases n,
{
    let e = edits.take(n);
    assert(e.drop_last() =~= edits.take(n - 1));
    assert(e.last() == edits[n - 1]);
    if n == k + 1 {
        lemma_places_front(gaps, edits.take(k), k);
    } else {
        lemma_place(gaps, edits, k, n - 1);
        let front = places(gaps, edits.take(k), k);
        assert(places(gaps, e, k) =~= front + old_text(edits[k]) + rest_of(gaps, edits, k, n));
        assert(places(gaps, e, k + 1) =~= front + new_text(edits[k]) + rest_of(gaps, edits, k, n));
    }
}

/// Edits beyond those of a list make no difference to it.
proof fn lemma_places_front(gaps: Seq<Seq<char>>, edits: Seq<JsonView>, k: int)
    requires
        edits.len() <= k,
    ensures
        places(gaps, edits, k) == places(gaps, edits, k + 1),
    decreases edits.len(),
{
    if edits.len() > 0 {
        lemma_places_front(gaps, edits.drop_last(), k);
    }
}

/// A text that occurs once is replaced where it stands.
proof fn lemma_replace_once(front: Seq<char>, old: Seq<char>, back: Seq<char>, new: Seq<char>)
    requires
        old.len() > 0,
        stands_once(front + old + back, old),
    ensures
        replace_of(front + old + back, old, new) == front + new + back,
{
    let s = front + old + back;
    let at = front.len() as int;
    lemma_find(s, old);
    assert(s.subrange(at, at + old.len()) =~= old);
    assert(occurs_at(s, old, at));
    let i = find_of(s, old)->0;
    assert(i == at);
    let rest = s.skip(i + old.len());
    lemma_find(rest, old);
    if find_of(rest, old) is Some {
        let j = find_of(rest, old)->0;
        let k = i + old.len() + j;
        assert(s.subrange(k, k + old.len()) =~= rest.subrange(j, j + old.len()));
        assert(occurs_at(s, old, k));
    }
    lemma_replace_absent(rest, old, new);
    assert(s.take(i) =~= front);
    assert(rest =~= back);
}

/// Edits are accepted exactly where each of them gives both texts, and its old text
/// occurs once in the content as it was before any of them.
pub proof fn law_edits_are_accepted_iff_sound(content: Seq<char>, edits: Seq<JsonView>)
    ensures
        edits_fault(content, edits) is None <==> forall|k: int|
            0 <= k < edits.len() ==> {
                &&& (#[trigger] edits[k]).get_str("oldText"@) is Some
                &&& edits[k].get_str("newText"@) is Some
                &&& count_of(content, edits[k].get_str("oldText"@)->0) == 1
            },
    decreases edits.len(),
{
    if edits.len() > 0 {
        let rest = edits.skip(1);
        law_edits_are_accepted_iff_sound(content, rest);
        if edits_fault(content, edits) is None {
            assert forall|k: int| 0 <= k < edits.len() implies {
                &&& (#[trigger] edits[k]).get_str("oldText"@) is Some
                &&& edits[k].get_str("newText"@) is Some
                &&& count_of(content, edits[k].get_str("oldText"@)->0) == 1
            } by {
                if k > 0 {
                    assert(rest[k - 1] == edits[k]);
                }
            }
        } else if forall|k: int|
            0 <= k < edits.len() ==> {
                &&& (#[trigger] edits[k]).get_str("oldText"@) is Some
                &&& edits[k].get_str("newText"@) is Some
                &&& count_of(content, edits[k].get_str("oldText"@)->0) == 1
            } {
            assert(edits[0].get_str("oldText"@) is Some);
            assert forall|k: int| 0 <= k < rest.len() implies {
                &&& (#[trigger] rest[k]).get_str("oldText"@) is Some
                &&& rest[k].get_str("newText"@) is Some
                &&& count_of(content, rest[k].get_str("oldText"@)->0) == 1
            } by {
                assert(rest[k] == edits[k + 1]);
            }
        }
    }
}

/// The report of edits says how many were made, of which file, and lists each of them,
/// in order, with the lengths of its texts.
pub proof fn law_report_lists_every_edit(
    path: Seq<char>,
    edits: Seq<JsonView>,
    before: Seq<char>,
    after: Seq<char>,
    k: int,
)
    requires
        0 <= k < edits.len(),
    ensures
        ({
            let report = edits_report(path, edits, before, after);
            let list = report.get_array("replacements"@);
            &&& report.get("applied"@) == Some(whole(edits.len() as int))
            &&& report.get_str("path"@) == Some(path)
            &&& report.get("ok"@) == Some(JsonView::Bool(true))
            &&& list is Some && list->0.len() == edits.len()
            &&& (list->0)[k].get("index"@) == Some(whole(k))
            &&& (list->0)[k].get("old_len"@) == Some(whole(old_text(edits[k]).len() as int))
            &&& (list->0)[k].get("new_len"@) == Some(whole(new_text(edits[k]).len() as int))
            &&& (list->0)[k].get("match_count"@) == Some(whole(1))
            &&& find_of(before, old_text(edits[k])) matches Some(i) ==> (list->0)[k].get_str("before_snippet"@) == Some(
                snippet_of(before, i, i + old_text(edits[k]).len(), 80),
            )
            &&& find_of(after, new_text(edits[k])) matches Some(i) ==> (list->0)[k].get_str("after_snippet"@) == Some(
                snippet_of(after, i, i + new_text(edits[k]).len(), 80),
            )
        }),
{
    reveal_strlit("applied");
    reveal_strlit("ok");
    reveal_strlit("path");
    reveal_strlit("replacements");
    reveal_strlit("after_snippet");
    reveal_strlit("before_snippet");
    reveal_strlit("index");
    reveal_strlit("match_count");
    reveal_strlit("new_len");
    reveal_strlit("old_len");
    assert("applied"@.len() == 7 && "ok"@.len() == 2 && "path"@.len() == 4 && "replacements"@.len() == 12);
    assert("after_snippet"@.len() == 13 && "before_snippet"@.len() == 14 && "index"@.len() == 5);
    assert("match_count"@.len() == 11 && "new_len"@.len() == 7 && "old_len"@.len() == 7);
    assert("new_len"@[0] == 'n' && "old_len"@[0] == 'o');
    reveal_with_fuel(lookup, 7);
    let e = edits_report(path, edits, before, after)->Object_0;
    assert(e.skip(1)[0] == e[1] && e.skip(1).skip(1)[0] == e[2] && e.skip(1).skip(1).skip(1)[0] == e[3]);
    let f = edit_report(k, edits[k], before, after)->Object_0;
    assert(f.skip(1)[0] == f[1] && f.skip(1).skip(1)[0] == f[2] && f.skip(1).skip(1).skip(1)[0] == f[3]);
    assert(f.skip(1).skip(1).skip(1).skip(1)[0] == f[4] && f.skip(1).skip(1).skip(1).skip(1).skip(1)[0] == f[5]);
}

/// What comes of edits: a new content exactly where they are accepted, which is that of
/// all edits made on the old one, with the report of it.
pub proof fn law_accepted_edits_are_made(path: Seq<char>, content: Seq<char>, edits: Seq<JsonView>, r: Result<EditDone, String>)
    requires
        applied(path, content, edits, r),
    ensures
        r is Ok <==> edits_fault(content, edits) is None,
        r matches Ok(done) ==> done.after@ == edited(content, edits) && done.report@ == indented(
            edits_report(path, edits, content, done.after@),
        ),
        r matches Err(e) ==> edits_fault(content, edits) == Some(e@),
{
}

/// A snippet shows the part that it is about, whole, with up to so many characters on
/// either side, and tells by an ellipsis where something is left out.
pub proof fn law_snippet_shows_its_part(text: Seq<char>, start: int, end: int, context: int)
    requires
        0 <= start <= end <= text.len(),
        0 <= context,
    ensures
        start <= context && end + context >= text.len() ==> snippet_of(text, start, end, context) == text,
        start > context && end + context < text.len() ==> snippet_of(text, start, end, context) == "…"@ + text.subrange(
            start - context,
            end + context,
        ) + "…"@,
        start > context && end + context >= text.len() ==> snippet_of(text, start, end, context) == "…"@ + text.skip(
            start - context,
        ),
        start <= context && end + context < text.len() ==> snippet_of(text, start, end, context) == text.take(
            end + context,
        ) + "…"@,
{
    reveal_strlit("");
    assert(text.subrange(0, text.len() as int) =~= text);
    if start <= context && end + context >= text.len() {
        assert(snippet_of(text, start, end, context) =~= text);
    }
    if start > context && end + context >= text.len() {
        assert(snippet_of(text, start, end, context) =~= "…"@ + text.skip(start - context));
    }
    if start <= context && end + context < text.len() {
        assert(snippet_of(text, start, end, context) =~= text.take(end + context) + "…"@);
    }
}

/// A file is refused exactly where a component of its path is `.git`, or its path has
/// the components of a protected one.
pub proof fn law_edit_is_refused_iff_kept(path: Seq<char>, protected: Seq<Seq<char>>)
    ensures
        edit_refusal(path, protected) is Some <==> segments_of(path).contains(".git"@) || exists|i: int|
            0 <= i < protected.len() && components_of(#[trigger] protected[i]) == components_of(path),
{
}

/// A call gives a path as a text and a list of one edit or more, each with an old and a new
/// text, and nothing else.
pub proof fn law_edit_call_conforms_iff(args: JsonView)
    ensures
        conforms(edit_schema(), args) <==> {
            &&& args is Object
            &&& args.get("path"@) is Some
            &&& args.get("edits"@) is Some
            &&& forall|i: int|
                0 <= i < args->Object_0.len() ==> {
                    ||| (#[trigger] args->Object_0[i]).0 == "path"@ && args->Object_0[i].1 is Str
                    ||| args->Object_0[i].0 == "edits"@ && is_list_of_edits(args->Object_0[i].1)
                }
        },
{
    let properties = seq![("edits"@, edits_schema()), ("path"@, string_schema("Path to the file to edit."@))];
    let required = seq![JsonView::Str("path"@), JsonView::Str("edits"@)];
    assert(edit_schema() == object_schema(JsonView::Object(properties), required));
    law_arguments_conform_iff(properties, required, args);
    assert(required[0] == JsonView::Str("path"@) && required[1] == JsonView::Str("edits"@));
    reveal_strlit("path");
    reveal_strlit("edits");
    assert("path"@.len() == 4 && "edits"@.len() == 5);
    if args is Object {
        let e = args->Object_0;
        assert forall|i: int| 0 <= i < e.len() implies ((#[trigger] e[i]).0 == "path"@ && e[i].1 is Str || e[i].0
            == "edits"@ && is_list_of_edits(e[i].1)) == (lookup(properties, e[i].0) matches Some(sub) && conforms(
            sub,
            e[i].1,
        )) by {
            lemma_list_conforms(e[i].1);
            lemma_value_conforms(properties[1].1, e[i].1, "Path to the file to edit."@);
            if e[i].0 == "edits"@ {
                law_lookup_finds_first(properties, e[i].0, 0);
            } else if e[i].0 == "path"@ {
                law_lookup_finds_first(properties, e[i].0, 1);
            } else {
                law_lookup_finds_first(properties, e[i].0, 2);
            }
        }
        if args.get("path"@) is Some && args.get("edits"@) is Some {
            assert forall|i: int| 0 <= i < required.len() implies (#[trigger] required[i] matches JsonView::Str(k)
                ==> args.get(k) is Some) by {}
        }
    }
}

/// The value is a list of one edit or more.
pub open spec fn is_list_of_edits(v: JsonView) -> bool {
    v matches JsonView::Array(a) && a.len() >= 1 && forall|i: int| 0 <= i < a.len() ==> is_edit(#[trigger] a[i])
}

/// The value is an edit: an object with an old and a new text, and nothing else.
pub open spec fn is_edit(v: JsonView) -> bool {
    &&& v is Object
    &&& v.get("oldText"@) is Some
    &&& v.get("newText"@) is Some
    &&& forall|i: int|
        0 <= i < v->Object_0.len() ==> ((#[trigger] v->Object_0[i]).0 == "oldText"@ || v->Object_0[i].0 == "newText"@)
            && v->Object_0[i].1 is Str
}

proof fn lemma_list_conforms(v: JsonView)
    ensures
        conforms(edits_schema(), v) <==> is_list_of_edits(v),
{
    reveal_strlit("description");
    reveal_strlit("items");
    reveal_strlit("minItems");
    reveal_strlit("type");
    assert("description"@.len() == 11 && "items"@.len() == 5 && "minItems"@.len() == 8 && "type"@.len() == 4);
    let e = edits_schema()->Object_0;
    law_lookup_finds_first(e, "items"@, 1);
    law_lookup_finds_first(e, "minItems"@, 2);
    law_lookup_finds_first(e, "type"@, 3);
    let sub = e[1].1;
    crate::schema::law_other_values_conform_iff(edits_schema(), v);
    if v is Array {
        let a = v->Array_0;
        assert forall|i: int| 0 <= i < a.len() implies conforms(sub, #[trigger] a[i]) == is_edit(a[i]) by {
            lemma_edit_conforms(a[i]);
        }
        if conforms(edits_schema(), v) {
            assert forall|i: int| 0 <= i < a.len() implies is_edit(#[trigger] a[i]) by {
                assert(conforms(sub, a[i]));
            }
        }
        if is_list_of_edits(v) {
            assert forall|i: int| 0 <= i < a.len() implies conforms(sub, #[trigger] a[i]) by {
                assert(is_edit(a[i]));
            }
        }
    }
}

proof fn lemma_edit_conforms(v: JsonView)
    ensures
        conforms(edits_schema()->Object_0[1].1, v) <==> is_edit(v),
{
    let properties = seq![("newText"@, plain_string()), ("oldText"@, plain_string())];
    let required = seq![JsonView::Str("oldText"@), JsonView::Str("newText"@)];
    assert(edits_schema()->Object_0[1].1 == object_schema(JsonView::Object(properties), required));
    law_arguments_conform_iff(properties, required, v);
    assert(required[0] == JsonView::Str("oldText"@) && required[1] == JsonView::Str("newText"@));
    reveal_strlit("newText");
    reveal_strlit("oldText");
    assert("newText"@[0] == 'n' && "oldText"@[0] == 'o');
    law_lookup_finds_first(plain_string()->Object_0, "type"@, 0);
    if v is Object {
        let e = v->Object_0;
        assert forall|i: int| 0 <= i < e.len() implies (((#[trigger] e[i]).0 == "oldText"@ || e[i].0 == "newText"@)
            && e[i].1 is Str) == (lookup(properties, e[i].0) matches Some(sub) && conforms(sub, e[i].1)) by {
            crate::schema::law_other_values_conform_iff(plain_string(), e[i].1);
            if e[i].0 == "newText"@ {
                law_lookup_finds_first(properties, e[i].0, 0);
            } else if e[i].0 == "oldText"@ {
                law_lookup_finds_first(properties, e[i].0, 1);
            } else {
                law_lookup_finds_first(properties, e[i].0, 2);
            }
        }
        if v.get("oldText"@) is Some && v.get("newText"@) is Some {
            assert forall|i: int| 0 <= i < required.len() implies (#[trigger] required[i] matches JsonView::Str(k)
                ==> v.get(k) is Some) by {}
        }
    }
}

/// What is told of edits is told of the first that cannot be made: it lacks a text, or its
/// old text does not stand exactly once in the file.
pub proof fn law_first_bad_edit_is_told(content: Seq<char>, edits: Seq<JsonView>, i: int)
    requires
        0 <= i < edits.len(),
        forall|k: int|
            0 <= k < i ==> (#[trigger] edits[k]).get_str("newText"@) is Some && (edits[k].get_str("oldText"@) matches Some(
                old,
            ) && count_of(content, old) == 1),
    ensures
        edits[i].get_str("oldText"@) is None || edits[i].get_str("newText"@) is None ==> edits_fault(content, edits)
            == Some("Error: each edit must include oldText and newText"@),
        edits[i].get_str("newText"@) is Some && (edits[i].get_str("oldText"@) matches Some(old) && count_of(content, old)
            != 1) ==> edits_fault(content, edits) == Some(
            "Error: oldText must match exactly once; found "@ + decimal(count_of(content, old_text(edits[i])))
                + " matches for: "@ + quoted(old_text(edits[i])),
        ),
    decreases i,
{
    if i > 0 {
        let rest = edits.skip(1);
        assert(edits[0].get_str("newText"@) is Some);
        assert forall|k: int| 0 <= k < i - 1 implies (#[trigger] rest[k]).get_str("newText"@) is Some && (
        rest[k].get_str("oldText"@) matches Some(old) && count_of(content, old) == 1) by {
            assert(rest[k] == edits[k + 1]);
        }
        assert(rest[i - 1] == edits[i]);
        law_first_bad_edit_is_told(content, rest, i - 1);
    }
}

/// A file that there is none of, that is none, or that cannot be read is told to be so; one
/// that may not be edited is refused before that; any other is edited.
pub proof fn law_unedited_file_is_told(path: String, message: String, bytes: String, protected: Seq<Seq<char>>)
    ensures
        target_fault(EditTarget::Unresolved(message), protected) == Some(error_of(message@)),
        edit_refusal(path@, protected) is None ==> {
            &&& target_fault(EditTarget::Missing(path), protected) == Some(error_of("file not found: "@ + path@))
            &&& target_fault(EditTarget::NotFile(path), protected) == Some(error_of("not a file: "@ + path@))
            &&& target_fault(EditTarget::Failed(path, message), protected) == Some(error_of(message@))
            &&& target_fault(EditTarget::Found(path, bytes), protected) is None
        },
        edit_refusal(path@, protected) matches Some(refusal) ==> {
            &&& target_fault(EditTarget::Missing(path), protected) == Some(refusal)
            &&& target_fault(EditTarget::NotFile(path), protected) == Some(refusal)
            &&& target_fault(EditTarget::Failed(path, message), protected) == Some(refusal)
            &&& target_fault(EditTarget::Found(path, bytes), protected) == Some(refusal)
        },
{
}

/// A call gives edits exactly where it lists at least one, and all that it lists are given.
pub proof fn law_edits_are_given_iff(args: JsonView, list: Seq<JsonView>)
    ensures
        args.get("edits"@) == Some(JsonView::Array(list)) && list.len() > 0 <==> edits_argument(args) == Some(list),
{
}

} // verus!
