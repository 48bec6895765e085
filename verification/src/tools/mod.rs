//! The tools of the coding agent: what each is told to be, what it makes of its
//! arguments, and what it answers.
pub mod bash;
pub mod edit;
pub mod glob;
pub mod read;
pub mod resolve;
pub mod sets;
pub mod write;

use vstd::prelude::*;

use crate::agent::events::says;
use crate::json::{object2, object3, text_value, Json, JsonView};
use crate::ordered::{law_lookup_finds_first, lookup};
use crate::path_text::{components_of, same_path, segments, segments_of};
use crate::schema::conforms;
use crate::summary::is_error;
use crate::text::{same, texts, trim_start_of};

verus! {

/// What a model is told of a tool.
pub struct ToolSpec {
    pub name: String,
    pub description: String,
    pub parameters: Json,
    pub enabled: bool,
}

/// What a tool's listing says.
pub struct ToolView {
    pub name: Seq<char>,
    pub description: Seq<char>,
    pub parameters: JsonView,
    pub enabled: bool,
}

impl ToolSpec {
    /// What the listing says.
    pub open spec fn view(&self) -> ToolView {
        ToolView {
            name: self.name@,
            description: self.description@,
            parameters: self.parameters@,
            enabled: self.enabled,
        }
    }

    /// A copy of the listing.
    pub fn copy(&self) -> (r: ToolSpec)
        ensures
            r@ == self@,
    {
        ToolSpec {
            name: self.name.clone(),
            description: self.description.clone(),
            parameters: self.parameters.copy(),
            enabled: self.enabled,
        }
    }
}

/// The listing of a tool in the shape in which tools are offered to a model.
pub open spec fn openai_tool(t: ToolView) -> JsonView {
    JsonView::Object(
        seq![
            (
                "function"@,
                JsonView::Object(
                    seq![
                        ("description"@, JsonView::Str(t.description)),
                        ("name"@, JsonView::Str(t.name)),
                        ("parameters"@, t.parameters),
                    ],
                ),
            ),
            ("type"@, JsonView::Str("function"@)),
        ],
    )
}

/// A tool that an agent can call.
pub trait AgentTool {
    /// What the tool's listing says.
    spec fn profile(&self) -> ToolView;

    /// The name of the tool.
    fn name(&self) -> (r: &str)
        ensures
            r@ == self.profile().name,
    ;

    /// What the tool does, in words.
    fn description(&self) -> (r: &str)
        ensures
            r@ == self.profile().description,
    ;

    /// The schema of the tool's arguments.
    fn parameters(&self) -> (r: &Json)
        ensures
            r@ == self.profile().parameters,
    ;

    /// Whether the tool may be called.
    fn enabled(&self) -> (r: bool)
        ensures
            r == self.profile().enabled,
    ;

    /// Says whether the tool may be called.
    fn set_enabled(&mut self, v: bool)
        ensures
            final(self).profile() == (ToolView { enabled: v, ..old(self).profile() }),
    ;

    /// The listing in the shape in which tools are offered to a model.
    fn to_openai_tool(&self) -> (r: Json)
        ensures
            r@ == openai_tool(self.profile()),
    {
        object2(
            "function",
            object3(
                "description",
                text_value(self.description()),
                "name",
                text_value(self.name()),
                "parameters",
                self.parameters().copy(),
            ),
            "type",
            text_value("function"),
        )
    }
}

impl AgentTool for ToolSpec {
    open spec fn profile(&self) -> ToolView {
        self@
    }

    fn name(&self) -> (r: &str) {
        self.name.as_str()
    }

    fn description(&self) -> (r: &str) {
        self.description.as_str()
    }

    fn parameters(&self) -> (r: &Json) {
        &self.parameters
    }

    fn enabled(&self) -> (r: bool) {
        self.enabled
    }

    fn set_enabled(&mut self, v: bool) {
        self.enabled = v;
    }
}

/// What is said of a tool that is held to a directory.
pub open spec fn bounded_note(root: Option<String>) -> Seq<char> {
    if root is Some {
        " Access is restricted to the working directory tree."@
    } else {
        ""@
    }
}

/// A description, with a note where the tool is held to a directory.
fn describe(text: &str, root: &Option<String>) -> (r: String)
    ensures
        r@ == text@ + bounded_note(*root),
{
    let mut out = String::from_str(text);
    out.append(if root.is_some() { " Access is restricted to the working directory tree." } else { "" });
    out
}

/// The text under `key`, where there is one that is not empty.
pub open spec fn argument(args: JsonView, key: Seq<char>) -> Option<Seq<char>> {
    match args.get_str(key) {
        Some(s) => if s.len() > 0 {
            Some(s)
        } else {
            None
        },
        None => None,
    }
}

/// The text under `key`, where there is one that is not empty.
pub(crate) fn text_argument<'a>(args: &'a Json, key: &str) -> (r: Option<&'a str>)
    ensures
        match r {
            Some(s) => argument(args@, key@) == Some(s@),
            None => argument(args@, key@) is None,
        },
{
    match args.get_str(key) {
        Some(s) => if s.is_empty() {
            None
        } else {
            Some(s)
        },
        None => None,
    }
}

/// An error as a tool reports it.
pub open spec fn error_of(message: Seq<char>) -> Seq<char> {
    "Error: "@ + message
}

/// An error as a tool reports it.
pub fn error_output(message: &str) -> (r: String)
    ensures
        r@ == error_of(message@),
{
    let mut out = String::from_str("Error: ");
    out.append(message);
    out
}

/// How a call that lacks an argument is answered.
pub open spec fn missing_argument(key: Seq<char>) -> Seq<char> {
    "Error: missing required argument '"@ + key + "'"@
}

/// How a call that lacks an argument is answered.
pub(crate) fn missing_argument_output(key: &str) -> (r: String)
    ensures
        r@ == missing_argument(key@),
{
    let mut out = String::from_str("Error: missing required argument '");
    out.append(key);
    out.append("'");
    out
}

// ---------------------------------------------------------------------------
// Schemas
// ---------------------------------------------------------------------------

/// The schema of a text.
pub open spec fn string_schema(description: Seq<char>) -> JsonView {
    JsonView::Object(seq![("description"@, JsonView::Str(description)), ("type"@, JsonView::Str("string"@))])
}

/// The schema of a whole number.
pub open spec fn integer_schema(description: Seq<char>) -> JsonView {
    JsonView::Object(seq![("description"@, JsonView::Str(description)), ("type"@, JsonView::Str("integer"@))])
}

/// The schema of a whole number from one on.
pub open spec fn positive_schema(description: Seq<char>) -> JsonView {
    JsonView::Object(
        seq![
            ("description"@, JsonView::Str(description)),
            ("minimum"@, crate::json::whole(1)),
            ("type"@, JsonView::Str("integer"@)),
        ],
    )
}

/// The schema of an object with the given properties and no others.
pub open spec fn object_schema(properties: JsonView, required: Seq<JsonView>) -> JsonView {
    JsonView::Object(
        seq![
            ("additionalProperties"@, JsonView::Bool(false)),
            ("properties"@, properties),
            ("required"@, JsonView::Array(required)),
            ("type"@, JsonView::Str("object"@)),
        ],
    )
}

/// The schema of a text.
fn string_property(description: &str) -> (r: Json)
    ensures
        r@ == string_schema(description@),
{
    object2("description", text_value(description), "type", text_value("string"))
}

/// The schema of a whole number.
fn integer_property(description: &str) -> (r: Json)
    ensures
        r@ == integer_schema(description@),
{
    object2("description", text_value(description), "type", text_value("integer"))
}

/// The schema of a whole number from one on.
fn positive_property(description: &str) -> (r: Json)
    ensures
        r@ == positive_schema(description@),
{
    object3(
        "description",
        text_value(description),
        "minimum",
        crate::json::number_value(1),
        "type",
        text_value("integer"),
    )
}

/// The schema of an object with the given properties and no others.
fn object_parameters(properties: Json, required: Vec<Json>) -> (r: Json)
    ensures
        r@ == object_schema(properties@, crate::json::list_view(required@)),
{
    crate::json::object4(
        "additionalProperties",
        Json::Bool(false),
        "properties",
        properties,
        "required",
        crate::json::array(required),
        "type",
        text_value("object"),
    )
}

// ---------------------------------------------------------------------------
// Paths that are out of reach
// ---------------------------------------------------------------------------

/// A component of the path is `.git`.
pub open spec fn git_internal(path: Seq<char>) -> bool {
    segments_of(path).contains(".git"@)
}

/// A path of the list is the path, component by component.
pub open spec fn is_protected(path: Seq<char>, protected: Seq<Seq<char>>) -> bool {
    exists|i: int| 0 <= i < protected.len() && components_of(#[trigger] protected[i]) == components_of(path)
}

/// Whether a component of the path is `.git`.
pub fn is_git_internal(path: &str) -> (r: bool)
    ensures
        r == git_internal(path@),
{
    let parts = segments(path);
    for i in 0..parts.len()
        invariant
            texts(parts@) == segments_of(path@),
            forall|k: int| 0 <= k < i ==> parts@[k]@ != ".git"@,
    {
        if same(parts[i].as_str(), ".git") {
            assert(texts(parts@)[i as int] == ".git"@);
            return true;
        }
    }
    proof {
        assert forall|k: int| 0 <= k < segments_of(path@).len() implies segments_of(path@)[k] != ".git"@ by {
            assert(texts(parts@)[k] == parts@[k]@);
        }
    }
    false
}

/// Whether a resolved path is one that tools may not touch.
pub fn is_protected_path(resolved_path: &str, protected_paths: &Vec<String>) -> (r: bool)
    ensures
        r == is_protected(resolved_path@, texts(protected_paths@)),
{
    for i in 0..protected_paths.len()
        invariant
            forall|k: int| 0 <= k < i ==> components_of(#[trigger] protected_paths@[k]@) != components_of(resolved_path@),
    {
        if same_path(protected_paths[i].as_str(), resolved_path) {
            assert(components_of(texts(protected_paths@)[i as int]) == components_of(resolved_path@));
            return true;
        }
    }
    proof {
        let p = texts(protected_paths@);
        assert forall|k: int| 0 <= k < p.len() implies components_of(#[trigger] p[k]) != components_of(
            resolved_path@,
        ) by {
            assert(p[k] == protected_paths@[k]@);
        }
    }
    false
}

// ---------------------------------------------------------------------------
// Laws
// ---------------------------------------------------------------------------

/// The components of a path are among what stands between its slashes, but for the
/// root: a path is inside `.git` wherever one of its components has that name.
pub proof fn law_git_component_is_internal(path: Seq<char>, i: int)
    requires
        0 <= i < components_of(path).len(),
        components_of(path)[i] == ".git"@,
    ensures
        git_internal(path),
{
    reveal_strlit(".git");
    reveal_strlit("/");
    reveal_strlit(".");
    let all = segments_of(path);
    lemma_named_are_segments(all);
    let n = crate::path_text::named(all);
    let head = components_of(path).len() - n.len();
    assert(components_of(path)[0] == ".git"@ ==> head == 0 || components_of(path)[0].len() == 1);
    assert(".git"@.len() == 4);
    assert("/"@.len() == 1 && "."@.len() == 1);
    assert(n[i - head] == ".git"@);
    assert(all.contains(n[i - head]));
}

proof fn lemma_named_are_segments(all: Seq<Seq<char>>)
    ensures
        forall|k: int|
            0 <= k < crate::path_text::named(all).len() ==> all.contains(#[trigger] crate::path_text::named(all)[k]),
    decreases all.len(),
{
    if all.len() > 0 {
        let rest = all.drop_last();
        lemma_named_are_segments(rest);
        let n = crate::path_text::named(all);
        assert forall|k: int| 0 <= k < n.len() implies all.contains(#[trigger] n[k]) by {
            if k < crate::path_text::named(rest).len() {
                assert(n[k] == crate::path_text::named(rest)[k]);
                assert(rest.contains(n[k]));
                let j = choose|j: int| 0 <= j < rest.len() && rest[j] == n[k];
                assert(all[j] == n[k]);
            } else {
                assert(n[k] == all.last());
                assert(all[all.len() - 1] == n[k]);
            }
        }
    }
}

/// A text that begins with the word reports an error.
pub proof fn lemma_begins_with_error(s: Seq<char>)
    requires
        s.len() >= 6,
        s[0] == 'E' && s[1] == 'r' && s[2] == 'r' && s[3] == 'o' && s[4] == 'r' && s[5] == ':',
    ensures
        is_error(s),
{
    reveal_strlit("Error:");
    assert(trim_start_of(s) == s);
    assert(s.take(6) =~= "Error:"@);
}

/// What a tool answers in the place of an error is told to be one: by the word that it
/// begins with.
pub proof fn law_error_is_told(message: Seq<char>, key: Seq<char>)
    ensures
        is_error(error_of(message)),
        is_error(missing_argument(key)),
{
    reveal_strlit("Error: ");
    reveal_strlit("Error: missing required argument '");
    lemma_begins_with_error(error_of(message));
    lemma_begins_with_error(missing_argument(key));
}

/// A tool is offered as a function with its name, its description and the schema of its
/// arguments.
pub proof fn law_tool_is_offered_whole(t: ToolView)
    ensures
        says(openai_tool(t), "type"@, JsonView::Str("function"@)),
        exists|f: JsonView|
            {
                &&& #[trigger] says(openai_tool(t), "function"@, f)
                &&& says(f, "name"@, JsonView::Str(t.name))
                &&& says(f, "description"@, JsonView::Str(t.description))
                &&& says(f, "parameters"@, t.parameters)
            },
{
    let e = openai_tool(t)->Object_0;
    assert(e[0].0 == "function"@ && e[1].0 == "type"@);
    let f = e[0].1;
    let g = f->Object_0;
    assert(g[0].0 == "description"@ && g[1].0 == "name"@ && g[2].0 == "parameters"@);
    assert(says(openai_tool(t), "function"@, f));
}

/// The schema of an object asks for its properties and for no others; that of a property
/// says its type, and what it is for.
pub proof fn law_schemas_say_what_is_asked(properties: JsonView, required: Seq<JsonView>, description: Seq<char>)
    ensures
        says(object_schema(properties, required), "type"@, JsonView::Str("object"@)),
        says(object_schema(properties, required), "properties"@, properties),
        says(object_schema(properties, required), "required"@, JsonView::Array(required)),
        says(object_schema(properties, required), "additionalProperties"@, JsonView::Bool(false)),
        says(string_schema(description), "type"@, JsonView::Str("string"@)),
        says(string_schema(description), "description"@, JsonView::Str(description)),
        says(integer_schema(description), "type"@, JsonView::Str("integer"@)),
        says(integer_schema(description), "description"@, JsonView::Str(description)),
        says(positive_schema(description), "type"@, JsonView::Str("integer"@)),
        says(positive_schema(description), "description"@, JsonView::Str(description)),
        says(positive_schema(description), "minimum"@, crate::json::whole(1)),
{
    let e = object_schema(properties, required)->Object_0;
    assert(e[0].0 == "additionalProperties"@ && e[1].0 == "properties"@ && e[2].0 == "required"@ && e[3].0 == "type"@);
    let e = string_schema(description)->Object_0;
    assert(e[0].0 == "description"@ && e[1].0 == "type"@);
    let e = integer_schema(description)->Object_0;
    assert(e[0].0 == "description"@ && e[1].0 == "type"@);
    let e = positive_schema(description)->Object_0;
    assert(e[0].0 == "description"@ && e[1].0 == "minimum"@ && e[2].0 == "type"@);
}

/// An argument is given where there is a text under its name that is not empty.
pub proof fn law_argument_is_given_iff(args: JsonView, key: Seq<char>)
    ensures
        argument(args, key) is Some <==> (args.get_str(key) matches Some(s) && s.len() > 0),
        argument(args, key) is Some ==> argument(args, key) == args.get_str(key),
        error_of(key) == "Error: "@ + key,
        missing_argument(key) == "Error: missing required argument '"@ + key + "'"@,
{
}

/// What a schema of an object says can be read from it.
pub proof fn lemma_object_schema(properties: JsonView, required: Seq<JsonView>)
    ensures
        ({
            let s = object_schema(properties, required);
            &&& s.get_str("type"@) == Some("object"@)
            &&& s.get("properties"@) == Some(properties)
            &&& s.get_array("required"@) == Some(required)
            &&& s.get("additionalProperties"@) == Some(JsonView::Bool(false))
        }),
{
    reveal_strlit("additionalProperties");
    reveal_strlit("properties");
    reveal_strlit("required");
    reveal_strlit("type");
    assert("additionalProperties"@.len() == 20 && "properties"@.len() == 10 && "required"@.len() == 8 && "type"@.len()
        == 4);
    let e = object_schema(properties, required)->Object_0;
    law_lookup_finds_first(e, "additionalProperties"@, 0);
    law_lookup_finds_first(e, "properties"@, 1);
    law_lookup_finds_first(e, "required"@, 2);
    law_lookup_finds_first(e, "type"@, 3);
}

/// What a schema of a text or of a number says can be read from it.
pub proof fn lemma_value_schemas(description: Seq<char>)
    ensures
        string_schema(description).get_str("type"@) == Some("string"@),
        integer_schema(description).get_str("type"@) == Some("integer"@),
        integer_schema(description).get_i64("minimum"@) is None,
        positive_schema(description).get_str("type"@) == Some("integer"@),
        positive_schema(description).get_i64("minimum"@) == Some(1int),
{
    reveal_strlit("description");
    reveal_strlit("minimum");
    reveal_strlit("type");
    assert("description"@.len() == 11 && "minimum"@.len() == 7 && "type"@.len() == 4);
    law_lookup_finds_first(string_schema(description)->Object_0, "type"@, 1);
    law_lookup_finds_first(integer_schema(description)->Object_0, "type"@, 1);
    law_lookup_finds_first(integer_schema(description)->Object_0, "minimum"@, 2);
    law_lookup_finds_first(positive_schema(description)->Object_0, "type"@, 2);
    law_lookup_finds_first(positive_schema(description)->Object_0, "minimum"@, 1);
}

/// An object conforms to a schema of an object exactly where it has what is required, has
/// nothing that is not listed, and each of its values is as the schema of its property
/// asks.
pub proof fn law_arguments_conform_iff(properties: Seq<(Seq<char>, JsonView)>, required: Seq<JsonView>, args: JsonView)
    ensures
        conforms(object_schema(JsonView::Object(properties), required), args) <==> {
            &&& args is Object
            &&& forall|i: int|
                0 <= i < required.len() ==> (#[trigger] required[i] matches JsonView::Str(k) ==> args.get(k) is Some)
            &&& forall|i: int|
                0 <= i < args->Object_0.len() ==> (lookup(properties, (#[trigger] args->Object_0[i]).0) matches Some(
                    sub,
                ) && conforms(sub, args->Object_0[i].1))
        },
{
    let s = object_schema(JsonView::Object(properties), required);
    lemma_object_schema(JsonView::Object(properties), required);
    crate::schema::law_object_conforms_iff(s, args);
    if args is Object {
        let e = args->Object_0;
        assert forall|i: int| 0 <= i < e.len() implies crate::schema::property_of(s, (#[trigger] e[i]).0) == lookup(
            properties,
            e[i].0,
        ) by {}
    }
}

/// The value is a whole number from one on.
pub open spec fn is_positive(v: JsonView) -> bool {
    v.as_i64() matches Some(n) && n >= 1
}

/// What the schemas of texts and numbers ask.
pub proof fn lemma_value_conforms(schema: JsonView, v: JsonView, description: Seq<char>)
    ensures
        schema == string_schema(description) ==> (conforms(schema, v) <==> v is Str),
        schema == integer_schema(description) ==> (conforms(schema, v) <==> v.as_i64() is Some || v.as_u64() is Some),
        schema == positive_schema(description) ==> (conforms(schema, v) <==> is_positive(v)),
{
    lemma_value_schemas(description);
    crate::schema::law_other_values_conform_iff(schema, v);
}

} // verus!
