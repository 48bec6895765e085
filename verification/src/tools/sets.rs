//! Which tools and commands an agent is given.
use vstd::prelude::*;

use crate::ordered::NameSet;
use crate::text::{copy_texts, texts};
use super::bash::{bash_profile, bounds_text, BashTool};
use super::edit::{edit_profile, EditTool};
use super::glob::{glob_profile, GlobTool};
use super::read::{read_profile, ReadTool};
use super::write::{write_profile, WriteTool};
use super::{AgentTool, ToolSpec, ToolView};

verus! {

/// The commands that may always be run, as they are listed.
pub open spec fn default_command_list() -> Seq<Seq<char>> {
    seq![
        "ls"@,
        "pwd"@,
        "find"@,
        "grep"@,
        "head"@,
        "tail"@,
        "wc"@,
        "git"@,
        "test"@,
        "echo"@,
        "sed"@,
    ]
}

/// The commands that may always be run.
pub open spec fn default_commands() -> Set<Seq<char>> {
    default_command_list().to_set()
}

/// The commands that may always be run.
pub fn default_allowed_commands() -> (r: NameSet)
    ensures
        r.wf(),
        r@ == default_commands(),
{
    let list = vec![
        String::from_str("ls"),
        String::from_str("pwd"),
        String::from_str("find"),
        String::from_str("grep"),
        String::from_str("head"),
        String::from_str("tail"),
        String::from_str("wc"),
        String::from_str("git"),
        String::from_str("test"),
        String::from_str("echo"),
        String::from_str("sed"),
    ];
    assert(texts(list@) =~= default_command_list());
    NameSet::of_list(&list)
}

/// The commands that a review may run, as they are listed. None of them shows the
/// environment, where keys are kept.
pub open spec fn review_command_list() -> Seq<Seq<char>> {
    seq!["ls"@, "stat"@, "pwd"@, "find"@, "grep"@, "head"@, "tail"@, "which"@, "rg"@]
}

/// The commands that a review may run.
pub open spec fn review_commands() -> Set<Seq<char>> {
    review_command_list().to_set()
}

/// The commands that a review may run.
pub fn review_allowed_commands() -> (r: NameSet)
    ensures
        r.wf(),
        r@ == review_commands(),
{
    let list = vec![
        String::from_str("ls"),
        String::from_str("stat"),
        String::from_str("pwd"),
        String::from_str("find"),
        String::from_str("grep"),
        String::from_str("head"),
        String::from_str("tail"),
        String::from_str("which"),
        String::from_str("rg"),
    ];
    assert(texts(list@) =~= review_command_list());
    NameSet::of_list(&list)
}

/// One of the tools.
pub enum Tool {
    Read(ReadTool),
    Glob(GlobTool),
    Bash(BashTool),
    Edit(EditTool),
    Write(WriteTool),
}

impl Tool {
    /// What the tool's listing says.
    pub open spec fn profile(&self) -> ToolView {
        match self {
            Tool::Read(t) => t.listing@,
            Tool::Glob(t) => t.listing@,
            Tool::Bash(t) => t.listing@,
            Tool::Edit(t) => t.listing@,
            Tool::Write(t) => t.listing@,
        }
    }

    /// What the model is told of the tool.
    pub fn listing(&self) -> (r: ToolSpec)
        ensures
            r@ == self.profile(),
    {
        match self {
            Tool::Read(t) => t.listing.copy(),
            Tool::Glob(t) => t.listing.copy(),
            Tool::Bash(t) => t.listing.copy(),
            Tool::Edit(t) => t.listing.copy(),
            Tool::Write(t) => t.listing.copy(),
        }
    }
}

/// The directory is the one that is given.
pub open spec fn held_to(root: Option<String>, dir: Seq<char>) -> bool {
    root matches Some(r) && r@ == dir
}

/// The tool reads files in a directory, but for protected ones.
pub open spec fn reads_in(t: Tool, root: Seq<char>, protected: Seq<Seq<char>>) -> bool {
    t matches Tool::Read(r) && held_to(r.root, root) && texts(r.protected_paths@) == protected && r.profile()
        == read_profile(r.root)
}

/// The tool lists files in a directory.
pub open spec fn globs_in(t: Tool, root: Seq<char>) -> bool {
    t matches Tool::Glob(r) && held_to(r.root, root) && r.profile() == glob_profile(r.root)
}

/// The tool runs the allowed commands in a directory, and none on protected paths.
pub open spec fn runs_in(t: Tool, root: Seq<char>, allowed: Set<Seq<char>>, protected: Seq<Seq<char>>) -> bool {
    t matches Tool::Bash(r) && r.wf() && held_to(r.cwd, root) && r.bounded && r.allowed_commands@ == allowed && texts(
        r.protected_paths@,
    ) == protected && r.profile() == bash_profile(true, true, allowed)
}

/// The tool edits files in a directory, but for protected ones.
pub open spec fn edits_in(t: Tool, root: Seq<char>, protected: Seq<Seq<char>>) -> bool {
    t matches Tool::Edit(r) && held_to(r.root, root) && texts(r.protected_paths@) == protected && r.profile()
        == edit_profile(r.root)
}

/// The tool writes files in a directory, but for protected ones.
pub open spec fn writes_in(t: Tool, root: Seq<char>, protected: Seq<Seq<char>>) -> bool {
    t matches Tool::Write(r) && held_to(r.root, root) && texts(r.protected_paths@) == protected && r.profile()
        == write_profile(r.root)
}

/// The usual commands and those of `bash_allow`.
fn usual_commands(bash_allow: &NameSet) -> (r: NameSet)
    ensures
        r.wf(),
        r@ == default_commands().union(bash_allow@),
{
    let mut allowed = default_allowed_commands();
    allowed.extend(bash_allow);
    allowed
}

/// The tools of an author, who works in the directory `root` and may not touch the
/// protected paths.
pub fn make_tools(root: &str, bash_allow: &NameSet, protected_paths: &Vec<String>) -> (r: Vec<Tool>)
    ensures
        r@.len() == 5,
        reads_in(r@[0], root@, texts(protected_paths@)),
        globs_in(r@[1], root@),
        runs_in(r@[2], root@, default_commands().union(bash_allow@), texts(protected_paths@)),
        edits_in(r@[3], root@, texts(protected_paths@)),
        writes_in(r@[4], root@, texts(protected_paths@)),
{
    let read = ReadTool::new(Some(String::from_str(root))).with_protected_paths(copy_texts(protected_paths));
    let glob = GlobTool::new(Some(String::from_str(root)));
    let bash = BashTool::new(Some(String::from_str(root)), true, Some(usual_commands(bash_allow)));
    let bash = bash.with_protected_paths(copy_texts(protected_paths));
    let edit = EditTool::new(Some(String::from_str(root))).with_protected_paths(copy_texts(protected_paths));
    let write = WriteTool::new(Some(String::from_str(root))).with_protected_paths(copy_texts(protected_paths));
    vec![Tool::Read(read), Tool::Glob(glob), Tool::Bash(bash), Tool::Edit(edit), Tool::Write(write)]
}

/// The tools of a reader.
pub fn make_readonly_tools(root: &str, bash_allow: &NameSet) -> (r: Vec<Tool>)
    ensures
        r@.len() == 3,
        reads_in(r@[0], root@, Seq::empty()),
        globs_in(r@[1], root@),
        runs_in(r@[2], root@, default_commands().union(bash_allow@), Seq::empty()),
{
    let read = ReadTool::new(Some(String::from_str(root)));
    let glob = GlobTool::new(Some(String::from_str(root)));
    let bash = BashTool::new(Some(String::from_str(root)), true, Some(usual_commands(bash_allow)));
    assert(texts(read.protected_paths@) =~= Seq::empty());
    assert(texts(bash.protected_paths@) =~= Seq::empty());
    vec![Tool::Read(read), Tool::Glob(glob), Tool::Bash(bash)]
}

/// The tools of a review, which may write but not edit.
pub fn make_review_tools(root: &str, protected_paths: &Vec<String>) -> (r: Vec<Tool>)
    ensures
        r@.len() == 4,
        reads_in(r@[0], root@, texts(protected_paths@)),
        globs_in(r@[1], root@),
        writes_in(r@[2], root@, texts(protected_paths@)),
        runs_in(r@[3], root@, review_commands(), texts(protected_paths@)),
{
    let read = ReadTool::new(Some(String::from_str(root))).with_protected_paths(copy_texts(protected_paths));
    let glob = GlobTool::new(Some(String::from_str(root)));
    let write = WriteTool::new(Some(String::from_str(root))).with_protected_paths(copy_texts(protected_paths));
    let bash = BashTool::new(Some(String::from_str(root)), true, Some(review_allowed_commands()));
    let bash = bash.with_protected_paths(copy_texts(protected_paths));
    vec![Tool::Read(read), Tool::Glob(glob), Tool::Write(write), Tool::Bash(bash)]
}

/// What the model is told of a list of tools.
pub fn listings(tools: &Vec<Tool>) -> (r: Vec<ToolSpec>)
    ensures
        r@.len() == tools@.len(),
        forall|i: int| 0 <= i < r@.len() ==> (#[trigger] r@[i])@ == tools@[i].profile(),
{
    let mut out: Vec<ToolSpec> = Vec::new();
    for i in 0..tools.len()
        invariant
            out@.len() == i,
            forall|k: int| 0 <= k < i ==> (#[trigger] out@[k])@ == tools@[k].profile(),
    {
        out.push(tools[i].listing());
    }
    out
}

// ---------------------------------------------------------------------------
// Laws
// ---------------------------------------------------------------------------

/// A review cannot show the environment: neither of the commands that do so is
/// among those that it may run.
pub proof fn law_review_hides_environment()
    ensures
        !review_commands().contains("env"@),
        !review_commands().contains("printenv"@),
{
    reveal_strlit("env");
    reveal_strlit("printenv");
    reveal_strlit("ls");
    reveal_strlit("stat");
    reveal_strlit("pwd");
    reveal_strlit("find");
    reveal_strlit("grep");
    reveal_strlit("head");
    reveal_strlit("tail");
    reveal_strlit("which");
    reveal_strlit("rg");
    let list = review_command_list();
    assert("env"@.len() == 3 && "env"@[0] == 'e');
    assert("printenv"@.len() == 8);
    assert("ls"@.len() == 2 && "stat"@.len() == 4 && "pwd"@.len() == 3 && "find"@.len() == 4 && "grep"@.len() == 4);
    assert("head"@.len() == 4 && "tail"@.len() == 4 && "which"@.len() == 5 && "rg"@.len() == 2);
    assert("pwd"@[0] == 'p');
    assert forall|i: int| 0 <= i < list.len() implies list[i] != "env"@ && list[i] != "printenv"@ by {
        assert(list[0] == "ls"@ && list[1] == "stat"@ && list[2] == "pwd"@ && list[3] == "find"@ && list[4] == "grep"@);
        assert(list[5] == "head"@ && list[6] == "tail"@ && list[7] == "which"@ && list[8] == "rg"@);
    }
}

/// The commands that may always be run are these eleven.
pub proof fn law_usual_commands_are_these(name: Seq<char>)
    ensures
        default_commands().contains(name) <==> name == "ls"@ || name == "pwd"@ || name == "find"@ || name == "grep"@ || name
            == "head"@ || name == "tail"@ || name == "wc"@ || name == "git"@ || name == "test"@ || name == "echo"@ || name
            == "sed"@,
{
    let list = default_command_list();
    assert(list[0] == "ls"@ && list[1] == "pwd"@ && list[2] == "find"@ && list[3] == "grep"@ && list[4] == "head"@);
    assert(list[5] == "tail"@ && list[6] == "wc"@ && list[7] == "git"@ && list[8] == "test"@ && list[9] == "echo"@);
    assert(list[10] == "sed"@);
}

/// The commands that a review may run are these nine.
pub proof fn law_review_commands_are_these(name: Seq<char>)
    ensures
        review_commands().contains(name) <==> name == "ls"@ || name == "stat"@ || name == "pwd"@ || name == "find"@ || name
            == "grep"@ || name == "head"@ || name == "tail"@ || name == "which"@ || name == "rg"@,
{
    let list = review_command_list();
    assert(list[0] == "ls"@ && list[1] == "stat"@ && list[2] == "pwd"@ && list[3] == "find"@ && list[4] == "grep"@);
    assert(list[5] == "head"@ && list[6] == "tail"@ && list[7] == "which"@ && list[8] == "rg"@);
}

/// An author has every tool, a reader none that changes files, and a review none that
/// edits them. Each works in the directory that is given.
pub proof fn law_tools_of_each(
    root: &str,
    allow: NameSet,
    protected: Vec<String>,
    author: Vec<Tool>,
    reader: Vec<Tool>,
    review: Vec<Tool>,
    i: int,
)
    requires
        call_ensures(make_tools, (root, &allow, &protected), author),
        call_ensures(make_readonly_tools, (root, &allow), reader),
        call_ensures(make_review_tools, (root, &protected), review),
    ensures
        author@.len() == 5 && reader@.len() == 3 && review@.len() == 4,
        0 <= i < reader@.len() ==> !(reader@[i] is Edit) && !(reader@[i] is Write),
        0 <= i < review@.len() ==> !(review@[i] is Edit),
        author@[0] is Read && author@[1] is Glob && author@[2] is Bash && author@[3] is Edit && author@[4] is Write,
        0 <= i < author@.len() ==> works_in(author@[i], root@),
        0 <= i < reader@.len() ==> works_in(reader@[i], root@),
        0 <= i < review@.len() ==> works_in(review@[i], root@),
        0 <= i < review@.len() && review@[i] is Bash ==> review@[i]->Bash_0.allowed_commands@ == review_commands(),
        0 <= i < author@.len() && author@[i] is Bash ==> default_commands().subset_of(
            author@[i]->Bash_0.allowed_commands@,
        ) && allow@.subset_of(author@[i]->Bash_0.allowed_commands@),
{
}

/// The tool works in the directory, and its commands are held to the allowed ones.
pub open spec fn works_in(t: Tool, root: Seq<char>) -> bool {
    match t {
        Tool::Read(r) => r.root matches Some(dir) && dir@ == root,
        Tool::Glob(r) => r.root matches Some(dir) && dir@ == root,
        Tool::Bash(r) => (r.cwd matches Some(dir) && dir@ == root) && r.bounded,
        Tool::Edit(r) => r.root matches Some(dir) && dir@ == root,
        Tool::Write(r) => r.root matches Some(dir) && dir@ == root,
    }
}

/// A tool that is held to a directory is described as any other of its kind, and besides it
/// is said that it is held.
pub proof fn law_held_tool_says_so(dir: String, allowed: Set<Seq<char>>, held: bool)
    ensures
        read_profile(Some(dir)).description == read_profile(None).description
            + " Access is restricted to the working directory tree."@,
        glob_profile(Some(dir)).description == glob_profile(None).description
            + " Access is restricted to the working directory tree."@,
        edit_profile(Some(dir)).description == edit_profile(None).description
            + " Access is restricted to the working directory tree."@,
        write_profile(Some(dir)).description == write_profile(None).description
            + " Access is restricted to the working directory tree."@,
        bash_profile(held, true, allowed).description == bash_profile(held, false, allowed).description + bounds_text(
            allowed,
        ),
        bash_profile(false, false, allowed).description.is_prefix_of(bash_profile(true, false, allowed).description),
        bash_profile(false, false, allowed).description.len() < bash_profile(true, false, allowed).description.len(),
{
    reveal_strlit("");
    reveal_strlit(
        " Commands execute with the working directory set to the bounded root.Only access files and paths within the working directory;do not navigate to or read from paths outside it.",
    );
    let note = " Access is restricted to the working directory tree."@;
    assert(""@ =~= Seq::empty());
    assert(read_profile(Some(dir)).description =~= read_profile(None).description + note);
    assert(glob_profile(Some(dir)).description =~= glob_profile(None).description + note);
    assert(edit_profile(Some(dir)).description =~= edit_profile(None).description + note);
    assert(write_profile(Some(dir)).description =~= write_profile(None).description + note);
    let free = bash_profile(false, false, allowed).description;
    let bound = bash_profile(true, false, allowed).description;
    assert(bash_profile(held, true, allowed).description =~= bash_profile(held, false, allowed).description
        + bounds_text(allowed));
    assert(bound.subrange(0, free.len() as int) =~= free);
}

} // verus!
