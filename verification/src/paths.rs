//! Where the files of a loop lie.
use vstd::prelude::*;

use crate::path_text::{components_of, is_absolute_of, join_path, join_path_of, law_containment_is_transitive, law_name_becomes_last_component, lies_in};

verus! {

/// The files and directories of a loop.
pub struct LoopPaths {
    pub run_dir: String,
    pub metadata_dir: String,
    pub run_toml: String,
    pub state_toml: String,
    pub author_toml: String,
    pub review_output_toml: String,
}

/// The directory of the loops that run in a directory.
pub open spec fn run_dir_of(workdir: Seq<char>) -> Seq<char> {
    join_path_of(join_path_of(workdir, ".csloop"@), "loop"@)
}

/// The files and directories of the loops that run in a directory.
pub fn get_loop_paths(workdir: &str) -> (r: LoopPaths)
    ensures
        r.run_dir@ == run_dir_of(workdir@),
        r.metadata_dir@ == join_path_of(run_dir_of(workdir@), "metadata"@),
        r.run_toml@ == join_path_of(run_dir_of(workdir@), "run.toml"@),
        r.state_toml@ == join_path_of(run_dir_of(workdir@), "state.toml"@),
        r.author_toml@ == join_path_of(run_dir_of(workdir@), "author.toml"@),
        r.review_output_toml@ == join_path_of(run_dir_of(workdir@), "review_output.toml"@),
{
    let outer = join_path(workdir, ".csloop");
    let run_dir = join_path(outer.as_str(), "loop");
    LoopPaths {
        metadata_dir: join_path(run_dir.as_str(), "metadata"),
        run_toml: join_path(run_dir.as_str(), "run.toml"),
        state_toml: join_path(run_dir.as_str(), "state.toml"),
        author_toml: join_path(run_dir.as_str(), "author.toml"),
        review_output_toml: join_path(run_dir.as_str(), "review_output.toml"),
        run_dir,
    }
}

/// The files of a loop lie in one directory, below the directory that it runs in.
pub proof fn law_files_lie_below_workdir(workdir: Seq<char>)
    requires
        is_absolute_of(workdir),
    ensures
        components_of(run_dir_of(workdir)) == components_of(workdir) + seq![".csloop"@, "loop"@],
        lies_in(run_dir_of(workdir), workdir),
{
    reveal_strlit(".csloop");
    reveal_strlit("loop");
    reveal_strlit(".");
    assert(".csloop"@.len() == 7 && "loop"@.len() == 4 && "."@.len() == 1);
    let outer = join_path_of(workdir, ".csloop"@);
    law_name_becomes_last_component(workdir, ".csloop"@);
    law_name_becomes_last_component(outer, "loop"@);
    law_containment_is_transitive(run_dir_of(workdir), outer, workdir);
    assert(components_of(run_dir_of(workdir)) =~= components_of(workdir) + seq![".csloop"@, "loop"@]);
}

} // verus!
