//! The bounded loop in which one agent works on a task and another one reviews the work.
pub mod prompts;
pub mod records;
pub mod reports;
pub mod summaries;

use vstd::prelude::*;

use crate::agent::RunResult;
use crate::chat_template::{messages_to_json, messages_view, ChatMessage, ChatTemplateMeta, MessageView};
use crate::cli::RunnerConfig;
use crate::json::{list_view, Json, JsonView};
use crate::logging::{log_path_of, ToolLogToml};
use crate::model::anthropic::message;
use crate::model::maybe_text;
use crate::numbers::{decimal, decimal_text};
use crate::ordered::NameSet;
use crate::path_text::{
    components_of, is_absolute_of, join_path, join_path_of, lies_in, lies_within, relative, relative_of,
};
use crate::paths::{get_loop_paths, run_dir_of, LoopPaths};
use crate::std_text::{decode, decoded};
use crate::telemetry::{manifest_document, manifest_record, PhaseInfo};
use crate::text::{first_n_of, lines_of, texts};
use crate::toml_doc::{parse_toml, toml_list_view, toml_of, toml_parse, toml_text, Toml, TomlView};
use crate::tools::sets::{default_commands, edits_in, globs_in, make_review_tools, make_tools, reads_in, review_commands, runs_in, writes_in, Tool};
use self::prompts::{author_task, build_author_task, build_review_task, build_system_prompt, review_task, SYSTEM_PROMPT};
use self::records::{run_table, state_fault, sums_fit, token_sums, tokens_fit, too_large, update_cumulative_tokens, RunToml, RunView, StateToml, StateView, TokenSums};
use self::reports::{extract_pending_items, extract_status, first_status, items_in, Status};
use self::summaries::{loop_summary_from_result, push_text, summaries_view, summary_of_run, LoopSummary, SummaryView};

verus! {

// ---------------------------------------------------------------------------
// The task file
// ---------------------------------------------------------------------------

/// The resolved path, where it lies in the resolved directory.
pub fn ensure_within_workdir(resolved: &str, workdir_resolved: &str) -> (r: Result<String, String>)
    ensures
        match r {
            Ok(p) => lies_in(resolved@, workdir_resolved@) && p@ == resolved@,
            Err(e) => !lies_in(resolved@, workdir_resolved@) && e@ == "Path "@ + resolved@
                + " is outside working directory "@ + workdir_resolved@,
        },
{
    if lies_within(resolved, workdir_resolved) {
        Ok(String::from_str(resolved))
    } else {
        let mut text = String::from_str("Path ");
        text.append(resolved);
        text.append(" is outside working directory ");
        text.append(workdir_resolved);
        Err(text)
    }
}

// ---------------------------------------------------------------------------
// Stages
// ---------------------------------------------------------------------------

/// What is to be done next.
#[derive(Clone, Copy, PartialEq, Eq, Structural, Debug)]
pub enum Stage {
    Author(u32),
    Review(u32),
    Done,
}

/// The first stage of a run of so many loops.
pub open spec fn first_stage(agent_loops: u32) -> Stage {
    if agent_loops == 0 {
        Stage::Done
    } else {
        Stage::Author(1)
    }
}

/// The stage that follows one; `finished` says whether its agent found the task to be
/// complete.
pub open spec fn stage_after(stage: Stage, finished: bool, agent_loops: u32) -> Stage {
    match stage {
        Stage::Author(i) => if finished {
            Stage::Done
        } else {
            Stage::Review(i)
        },
        Stage::Review(i) => if finished || i >= agent_loops {
            Stage::Done
        } else {
            Stage::Author((i + 1) as u32)
        },
        Stage::Done => Stage::Done,
    }
}

/// The stage after the agents found what `findings` says, one after the other.
pub open spec fn stage_reached(agent_loops: u32, findings: Seq<bool>) -> Stage
    decreases findings.len(),
{
    if findings.len() == 0 {
        first_stage(agent_loops)
    } else {
        stage_after(stage_reached(agent_loops, findings.drop_last()), findings.last(), agent_loops)
    }
}

// ---------------------------------------------------------------------------
// The review's verdict
// ---------------------------------------------------------------------------

/// The next step that an entry of a verdict names.
pub open spec fn step_of(t: TomlView) -> Option<Seq<char>> {
    if t is Table {
        t.get_str("item"@)
    } else {
        t.as_str()
    }
}

/// The next steps that the entries of a verdict name; an empty one is none.
pub open spec fn steps_of(items: Seq<TomlView>) -> Seq<Seq<char>>
    decreases items.len(),
{
    if items.len() == 0 {
        Seq::empty()
    } else {
        let front = steps_of(items.drop_last());
        match step_of(items.last()) {
            Some(s) => if s.len() > 0 {
                front.push(s)
            } else {
                front
            },
            None => front,
        }
    }
}

/// The next steps after a verdict; those before stay where it lists none.
pub open spec fn steps_after(pending: Seq<Seq<char>>, verdict: TomlView) -> Seq<Seq<char>> {
    match verdict.get("pending"@) {
        Some(v) => match v.as_array() {
            Some(items) => steps_of(items),
            None => pending,
        },
        None => pending,
    }
}

/// Something blocks the task, as the verdict says.
pub open spec fn is_blocked(verdict: TomlView) -> bool {
    verdict.get_str("blocker"@) matches Some(b) && b.len() > 0
}

/// The verdict that a text holds: a table that is not empty.
pub open spec fn verdict_of(text: Option<Seq<char>>) -> Option<TomlView> {
    match text {
        None => None,
        Some(t) => match toml_parse(t) {
            Err(_) => None,
            Ok(v) => match v {
                TomlView::Table(e) => if e.len() > 0 {
                    Some(v)
                } else {
                    None
                },
                _ => None,
            },
        },
    }
}

/// The next step that an entry of a verdict names.
fn step_text(t: &Toml) -> (r: Option<String>)
    ensures
        maybe_text(r) == step_of(t@),
{
    let s = if t.is_table() {
        t.get_str("item")
    } else {
        t.as_str()
    };
    match s {
        Some(s) => Some(String::from_str(s)),
        None => None,
    }
}

/// The next steps that the entries of a verdict name.
fn list_steps(items: &Vec<Toml>) -> (r: Vec<String>)
    ensures
        texts(r@) == steps_of(toml_list_view(items@)),
{
    let ghost all = toml_list_view(items@);
    let mut out: Vec<String> = Vec::new();
    assert(all.take(0) =~= Seq::empty());
    assert(texts(out@) =~= Seq::empty());
    for i in 0..items.len()
        invariant
            all == toml_list_view(items@),
            texts(out@) == steps_of(all.take(i as int)),
    {
        proof {
            assert(all.take(i + 1).drop_last() =~= all.take(i as int));
            assert(all.take(i + 1).last() == items@[i as int]@);
        }
        if let Some(s) = step_text(&items[i]) {
            if !s.as_str().is_empty() {
                push_text(&mut out, s);
            }
        }
    }
    assert(all.take(items@.len() as int) =~= all);
    out
}

// ---------------------------------------------------------------------------
// The runner
// ---------------------------------------------------------------------------

/// A run of the loop.
pub struct PromptLoopRunner {
    pub model: String,
    pub agent_loops: u32,
    pub agent_iterations: u32,
    pub verbose: bool,
    pub logging: Option<String>,
    pub reason: bool,
    pub workdir_path: String,
    pub task_path: String,
    pub task_rel: String,
    pub review_output_rel: String,
    pub system: String,
    pub run_id: String,
    pub paths: LoopPaths,
    pub chat_history: Vec<Json>,
    pub bash_allow: NameSet,
    pub loop_summaries: Vec<LoopSummary>,
    pub pending_items: Vec<String>,
    pub loops_completed: u32,
    /// When the task file was last changed: nanoseconds since the start of 1970.
    pub task_mtime: Option<i128>,
    pub phase_metadata_files: Vec<String>,
    pub run_toml_data: RunToml,
    pub state: StateToml,
}

/// What is known of a run.
pub struct RunnerView {
    pub model: Seq<char>,
    pub agent_loops: u32,
    pub agent_iterations: u32,
    pub verbose: bool,
    pub logging: Option<Seq<char>>,
    pub reason: bool,
    pub workdir: Seq<char>,
    pub task_path: Seq<char>,
    pub task_rel: Seq<char>,
    pub review_output_rel: Seq<char>,
    pub system: Seq<char>,
    pub run_id: Seq<char>,
    pub paths: LoopPaths,
    pub chat: Seq<JsonView>,
    pub bash_allow: Set<Seq<char>>,
    pub summaries: Seq<SummaryView>,
    pub pending: Seq<Seq<char>>,
    pub loops_completed: u32,
    pub task_mtime: Option<i128>,
    pub phase_files: Seq<Seq<char>>,
    pub run: RunView,
    pub state: StateView,
}

/// The messages of a conversation, as they are handed to a model.
pub open spec fn history_of(messages: Seq<MessageView>) -> Seq<JsonView> {
    messages.map_values(|m: MessageView| message(m.role, JsonView::Str(m.content)))
}

/// A path as it is named from a directory: the rest of it where it lies in there, else
/// the path itself.
pub open spec fn named_from(path: Seq<char>, base: Seq<char>) -> Seq<char> {
    match relative_of(path, base) {
        Some(r) => r,
        None => path,
    }
}

/// A path as it is named from a directory.
fn name_from(path: &str, base: &str) -> (r: String)
    ensures
        r@ == named_from(path@, base@),
{
    match relative(path, base) {
        Some(r) => r,
        None => String::from_str(path),
    }
}

/// The record of a run that begins.
pub open spec fn opening_record(r: RunnerView, created_at: Seq<char>) -> RunView {
    RunView {
        run_id: r.run_id,
        created_at,
        workdir: r.workdir,
        task_file: r.task_path,
        model: r.model,
        agent_loops: r.agent_loops,
        agent_iterations: r.agent_iterations,
        tokens: TokenSums { input: 0, output: 0, cache_write: 0, cache_read: 0 },
        loops_completed: 0,
    }
}

/// The state of a run that begins.
pub open spec fn opening_state(r: RunnerView, updated_at: Seq<char>) -> StateView {
    StateView {
        run_id: r.run_id,
        workdir: r.workdir,
        task_file: r.task_path,
        loop_index: 0,
        phase: "idle"@,
        updated_at,
    }
}

/// A run whose task file was read again.
pub open spec fn reloaded(r: RunnerView, mtime: Option<i128>, messages: Seq<MessageView>) -> RunnerView {
    RunnerView { chat: history_of(messages), task_mtime: mtime, ..r }
}

/// A run that has entered a phase.
pub open spec fn entered(r: RunnerView, loop_index: u32, phase: Seq<char>) -> RunnerView {
    RunnerView { state: StateView { loop_index, phase, ..r.state }, ..r }
}

/// What an agent answered.
pub open spec fn answer_of(result: RunResult) -> Seq<char> {
    match result.final_text {
        Some(t) => t@,
        None => Seq::empty(),
    }
}

/// A run whose author is done.
pub open spec fn authored(r: RunnerView, loop_index: u32, result: RunResult) -> RunnerView {
    RunnerView {
        summaries: r.summaries.push(summary_of_run(loop_index, result)),
        pending: first_n_of(items_in(lines_of(answer_of(result)), false), 5),
        ..r
    }
}

/// A run whose progress is counted.
pub open spec fn counted(r: RunnerView, loop_index: u32) -> RunnerView {
    RunnerView { run: RunView { tokens: token_sums(r.summaries), loops_completed: loop_index, ..r.run }, ..r }
}

/// A run that a verdict was applied to.
pub open spec fn judged(r: RunnerView, verdict: TomlView) -> RunnerView {
    RunnerView { pending: steps_after(r.pending, verdict), ..r }
}

/// The number of iterations of a review: half of those of an author, but no fewer than
/// six where a session may have so many.
pub open spec fn review_budget(agent_iterations: u32) -> int {
    if agent_iterations / 2 > 6 {
        (agent_iterations / 2) as int
    } else if agent_iterations < 6 {
        agent_iterations as int
    } else {
        6
    }
}

/// What is said when the loop is over.
pub open spec fn closing_text(r: RunnerView) -> Seq<char> {
    "completed "@ + decimal(r.loops_completed as nat) + "/"@ + decimal(r.agent_loops as nat) + " loop(s) — run: "@
        + r.run_id + " — artifacts: "@ + r.paths.run_dir@
}

/// The tools are those of an author.
pub open spec fn authors_tools(r: RunnerView, tools: Seq<Tool>) -> bool {
    &&& tools.len() == 5
    &&& reads_in(tools[0], r.workdir, seq![r.task_path])
    &&& globs_in(tools[1], r.workdir)
    &&& runs_in(tools[2], r.workdir, default_commands().union(r.bash_allow), seq![r.task_path])
    &&& edits_in(tools[3], r.workdir, seq![r.task_path])
    &&& writes_in(tools[4], r.workdir, seq![r.task_path])
}

/// The tools are those of a review.
pub open spec fn review_tools(r: RunnerView, tools: Seq<Tool>) -> bool {
    &&& tools.len() == 4
    &&& reads_in(tools[0], r.workdir, seq![r.task_path])
    &&& globs_in(tools[1], r.workdir)
    &&& writes_in(tools[2], r.workdir, seq![r.task_path])
    &&& runs_in(tools[3], r.workdir, review_commands(), seq![r.task_path])
}

impl PromptLoopRunner {
    /// What is known of the run.
    pub open spec fn view(&self) -> RunnerView {
        RunnerView {
            model: self.model@,
            agent_loops: self.agent_loops,
            agent_iterations: self.agent_iterations,
            verbose: self.verbose,
            logging: maybe_text(self.logging),
            reason: self.reason,
            workdir: self.workdir_path@,
            task_path: self.task_path@,
            task_rel: self.task_rel@,
            review_output_rel: self.review_output_rel@,
            system: self.system@,
            run_id: self.run_id@,
            paths: self.paths,
            chat: list_view(self.chat_history@),
            bash_allow: self.bash_allow@,
            summaries: summaries_view(self.loop_summaries@),
            pending: texts(self.pending_items@),
            loops_completed: self.loops_completed,
            task_mtime: self.task_mtime,
            phase_files: texts(self.phase_metadata_files@),
            run: self.run_toml_data@,
            state: self.state@,
        }
    }

    /// A run that begins: `workdir_path` and `task_path` are where the directory and
    /// the task file lie, `template` is what the task file says.
    pub fn new(
        cfg: RunnerConfig,
        workdir_path: String,
        task_path: String,
        run_id: String,
        created_at: String,
        updated_at: String,
        template: (Vec<ChatMessage>, ChatTemplateMeta),
    ) -> (r: PromptLoopRunner)
        ensures
            r@.model == cfg.model@,
            r@.agent_loops == cfg.agent_loops,
            r@.agent_iterations == cfg.agent_iterations,
            r@.verbose == cfg.verbose,
            r@.logging == maybe_text(cfg.logging),
            r@.reason == cfg.reason,
            r@.workdir == workdir_path@,
            r@.task_path == task_path@,
            r@.task_rel == named_from(task_path@, workdir_path@),
            r@.review_output_rel == named_from(r@.paths.review_output_toml@, workdir_path@),
            r@.system == SYSTEM_PROMPT@,
            r@.run_id == run_id@,
            r@.paths.run_dir@ == run_dir_of(workdir_path@),
            r@.paths.metadata_dir@ == join_path_of(run_dir_of(workdir_path@), "metadata"@),
            r@.paths.run_toml@ == join_path_of(run_dir_of(workdir_path@), "run.toml"@),
            r@.paths.state_toml@ == join_path_of(run_dir_of(workdir_path@), "state.toml"@),
            r@.paths.author_toml@ == join_path_of(run_dir_of(workdir_path@), "author.toml"@),
            r@.paths.review_output_toml@ == join_path_of(run_dir_of(workdir_path@), "review_output.toml"@),
            r@.chat == history_of(messages_view(template.0@)),
            r@.bash_allow == template.1.bash_allow@,
            r@.summaries == Seq::<SummaryView>::empty(),
            r@.pending == Seq::<Seq<char>>::empty(),
            r@.loops_completed == 0,
            r@.task_mtime == None::<i128>,
            r@.phase_files == Seq::<Seq<char>>::empty(),
            r@.run == opening_record(r@, created_at@),
            r@.state == opening_state(r@, updated_at@),
    {
        let paths = get_loop_paths(workdir_path.as_str());
        let task_rel = name_from(task_path.as_str(), workdir_path.as_str());
        let review_output_rel = name_from(paths.review_output_toml.as_str(), workdir_path.as_str());
        let run_toml_data = RunToml {
            run_id: run_id.clone(),
            created_at,
            workdir: workdir_path.clone(),
            task_file: task_path.clone(),
            model: cfg.model.clone(),
            agent_loops: cfg.agent_loops,
            agent_iterations: cfg.agent_iterations,
            cumulative_input_tokens: 0,
            cumulative_output_tokens: 0,
            cumulative_cache_creation_tokens: 0,
            cumulative_cache_read_tokens: 0,
            loops_completed: 0,
        };
        let state = StateToml {
            run_id: run_id.clone(),
            workdir: workdir_path.clone(),
            task_file: task_path.clone(),
            loop_index: 0,
            phase: String::from_str("idle"),
            updated_at,
        };
        let (messages, meta) = template;
        let r = PromptLoopRunner {
            model: cfg.model,
            agent_loops: cfg.agent_loops,
            agent_iterations: cfg.agent_iterations,
            verbose: cfg.verbose,
            logging: cfg.logging,
            reason: cfg.reason,
            workdir_path,
            task_path,
            task_rel,
            review_output_rel,
            system: build_system_prompt(),
            run_id,
            paths,
            chat_history: messages_to_json(&messages),
            bash_allow: meta.bash_allow,
            loop_summaries: Vec::new(),
            pending_items: Vec::new(),
            loops_completed: 0,
            task_mtime: None,
            phase_metadata_files: Vec::new(),
            run_toml_data,
            state,
        };
        assert(r@.summaries =~= Seq::empty());
        assert(r@.pending =~= Seq::empty());
        assert(r@.phase_files =~= Seq::empty());
        r
    }

    /// The paths that the agents' tools may not touch: the task file, which says what
    /// they may do.
    pub fn protected_paths(&self) -> (r: Vec<String>)
        ensures
            texts(r@) == seq![self@.task_path],
    {
        let r = vec![self.task_path.clone()];
        assert(texts(r@) =~= seq![self@.task_path]);
        r
    }

    /// Whether the task file is to be read again, when it was last changed at a time.
    pub fn needs_reload(&self, current_mtime: Option<i128>) -> (r: bool)
        ensures
            r == (current_mtime != self@.task_mtime),
    {
        match (current_mtime, self.task_mtime) {
            (Some(a), Some(b)) => a != b,
            (None, None) => false,
            _ => true,
        }
    }

    /// Takes over what the task file now says of the conversation. What it says of the
    /// commands that may be run is not taken over: an agent that changes the file
    /// cannot allow itself more.
    pub fn reload_task_context(&mut self, current_mtime: Option<i128>, messages: &Vec<ChatMessage>)
        ensures
            final(self)@ == reloaded(old(self)@, current_mtime, messages_view(messages@)),
    {
        self.chat_history = messages_to_json(messages);
        self.task_mtime = current_mtime;
    }

    /// Enters a phase.
    pub fn update_state(&mut self, loop_index: u32, phase: &str)
        ensures
            final(self)@ == entered(old(self)@, loop_index, phase@),
    {
        self.state.loop_index = loop_index;
        self.state.phase = String::from_str(phase);
    }

    /// The state as it is written at a time, where nothing is wrong with it.
    pub fn state_record(&self, now: &str) -> (r: Result<StateToml, String>)
        ensures
            match r {
                Ok(s) => state_fault(self@.state) is None && s@ == (StateView { updated_at: now@, ..self@.state }),
                Err(e) => state_fault(self@.state) == Some(e@),
            },
    {
        self.state.checked(now)
    }

    /// Where the author's events are logged: in the run's own log, and in the one that
    /// was asked for.
    pub fn build_author_logging(&self) -> (r: Vec<ToolLogToml>)
        ensures
            r@.len() == if self@.logging is Some {
                2int
            } else {
                1int
            },
            r@[0].path@ == log_path_of(Some(self@.paths.author_toml@)),
            self@.logging is Some ==> r@[1].path@ == log_path_of(self@.logging),
    {
        let own = ToolLogToml::new(&Some(self.paths.author_toml.clone()));
        match &self.logging {
            Some(p) => vec![own, ToolLogToml::new(&Some(p.clone()))],
            None => vec![own],
        }
    }

    /// The tools of the author.
    pub fn build_author_tools(&self) -> (r: Vec<Tool>)
        ensures
            authors_tools(self@, r@),
    {
        make_tools(self.workdir_path.as_str(), &self.bash_allow, &self.protected_paths())
    }

    /// The file whose text the author is shown, if any is.
    pub fn initial_task_file(&self, loop_index: u32) -> (r: Option<String>)
        ensures
            maybe_text(r) == if loop_index == 1 {
                Some(join_path_of(self@.workdir, self@.task_rel))
            } else {
                None
            },
    {
        if loop_index == 1 {
            Some(join_path(self.workdir_path.as_str(), self.task_rel.as_str()))
        } else {
            None
        }
    }

    /// What the author is told; `task_bytes` is what the task file holds, where it is
    /// shown and could be read.
    pub fn author_task(&self, loop_index: u32, task_bytes: &Option<Vec<u8>>) -> (r: String)
        ensures
            r@ == author_task(
                self@.workdir,
                self@.task_rel,
                match *task_bytes {
                    Some(b) => decoded(b@),
                    None => Seq::empty(),
                },
                loop_index as nat,
                self@.agent_loops as nat,
                self@.summaries,
                self@.pending,
            ),
    {
        let content = match task_bytes {
            Some(b) => decode(b),
            None => String::new(),
        };
        build_author_task(
            self.workdir_path.as_str(),
            self.task_rel.as_str(),
            content.as_str(),
            loop_index,
            self.agent_loops,
            &self.loop_summaries,
            &self.pending_items,
        )
    }

    /// Takes over what came of the author's run. Returns what the loop has done, what
    /// the author answered, and what that says of the task.
    pub fn record_author(&mut self, loop_index: u32, result: &RunResult) -> (r: (LoopSummary, String, Option<Status>))
        ensures
            final(self)@ == authored(old(self)@, loop_index, *result),
            r.0@ == summary_of_run(loop_index, *result),
            r.1@ == answer_of(*result),
            r.2 == first_status(lines_of(answer_of(*result))),
    {
        let answer = match &result.final_text {
            Some(t) => t.clone(),
            None => String::new(),
        };
        let summary = loop_summary_from_result(loop_index, result);
        let kept = summary.copy();
        let ghost before = self.loop_summaries@;
        self.loop_summaries.push(kept);
        self.pending_items = extract_pending_items(answer.as_str());
        assert(summaries_view(before.push(kept)) =~= summaries_view(before).push(kept@));
        let status = extract_status(answer.as_str());
        (summary, answer, status)
    }

    /// What is known of a phase beside what came of it.
    pub fn phase_info(&self, loop_index: u32, phase: &str) -> (r: PhaseInfo)
        ensures
            r.run_id@ == self@.run_id,
            r.loop_index == loop_index,
            r.phase@ == phase@,
            r.model@ == self@.model,
            r.task_file@ == self@.task_path,
            r.workdir@ == self@.workdir,
    {
        PhaseInfo {
            run_id: self.run_id.clone(),
            loop_index,
            phase: String::from_str(phase),
            model: self.model.clone(),
            task_file: self.task_path.clone(),
            workdir: self.workdir_path.clone(),
        }
    }

    /// Takes note of a phase's record.
    pub fn note_phase_file(&mut self, path: String)
        ensures
            final(self)@ == (RunnerView { phase_files: old(self)@.phase_files.push(path@), ..old(self)@ }),
    {
        push_text(&mut self.phase_metadata_files, path);
    }

    /// Counts the loops and tokens so far. Where a count is too large for 64 bits, it
    /// returns `false` and the run stays as it was.
    pub fn count_progress(&mut self, loop_index: u32) -> (r: bool)
        ensures
            r == sums_fit(token_sums(old(self)@.summaries)),
            final(self)@ == if r {
                counted(old(self)@, loop_index)
            } else {
                old(self)@
            },
    {
        if !tokens_fit(&self.loop_summaries) {
            return false;
        }
        update_cumulative_tokens(&mut self.run_toml_data, &self.loop_summaries);
        self.run_toml_data.loops_completed = loop_index;
        true
    }

    /// The text that lists the records of the run at a time.
    pub fn manifest(&self, now: &str) -> (r: Result<String, String>)
        ensures
            ({
                let doc = toml_text(toml_of(manifest_record(run_table(self@.run), self@.phase_files, now@)));
                match r {
                    Ok(t) => !too_large(self@.run.tokens) && (doc matches Ok(w) && w == t@),
                    Err(e) => if too_large(self@.run.tokens) {
                        e@ == "u64 value was too large"@
                    } else {
                        doc matches Err(w) && w == e@
                    },
                }
            }),
    {
        match self.run_toml_data.table() {
            Ok(run) => manifest_document(&run, &self.phase_metadata_files, now),
            Err(e) => Err(e),
        }
    }

    /// Takes note of a loop whose progress was written.
    pub fn complete_loop(&mut self, loop_index: u32)
        ensures
            final(self)@ == (RunnerView { loops_completed: loop_index, ..old(self)@ }),
    {
        self.loops_completed = loop_index;
    }

    /// The tools of the review.
    pub fn build_review_tools(&self) -> (r: Vec<Tool>)
        ensures
            review_tools(self@, r@),
    {
        make_review_tools(self.workdir_path.as_str(), &self.protected_paths())
    }

    /// How often the review may ask the model.
    pub fn review_iterations(&self) -> (r: u32)
        ensures
            r == review_budget(self@.agent_iterations),
            r <= self@.agent_iterations,
    {
        let half = self.agent_iterations / 2;
        if half > 6 {
            half
        } else if self.agent_iterations < 6 {
            self.agent_iterations
        } else {
            6
        }
    }

    /// Where the review's events are logged.
    pub fn build_review_logging(&self) -> (r: ToolLogToml)
        ensures
            r.path@ == join_path_of(self@.paths.run_dir@, "review.toml"@),
    {
        let path = join_path(self.paths.run_dir.as_str(), "review.toml");
        proof {
            reveal_strlit("review.toml");
        }
        ToolLogToml::new(&Some(path))
    }

    /// What the review is told.
    pub fn review_task(&self, loop_index: u32, loop_summary: &LoopSummary, exec_answer: &str) -> (r: String)
        ensures
            r@ == review_task(
                self@.workdir,
                self@.task_rel,
                self@.review_output_rel,
                loop_index as nat,
                loop_summary@,
                exec_answer@,
            ),
    {
        build_review_task(
            self.workdir_path.as_str(),
            self.task_rel.as_str(),
            self.review_output_rel.as_str(),
            loop_index,
            loop_summary,
            exec_answer,
        )
    }

    /// Applies the review's verdict, and returns whether the task is complete: no
    /// step is left and nothing blocks it.
    pub fn apply_review_data(&mut self, review_data: &Toml) -> (r: bool)
        ensures
            final(self)@ == judged(old(self)@, review_data@),
            r == (steps_after(old(self)@.pending, review_data@).len() == 0 && !is_blocked(review_data@)),
    {
        if let Some(v) = review_data.get("pending") {
            if let Some(items) = v.as_array() {
                self.pending_items = list_steps(items);
            }
        }
        let blocked = match review_data.get_str("blocker") {
            Some(b) => !b.is_empty(),
            None => false,
        };
        assert(texts(self.pending_items@).len() == self.pending_items@.len());
        self.pending_items.len() == 0 && !blocked
    }

    /// Reads the review's verdict, where there is one, and applies it. Returns whether
    /// the task is complete.
    pub fn read_review(&mut self, text: &Option<String>) -> (r: bool)
        ensures
            match verdict_of(maybe_text(*text)) {
                Some(v) => {
                    &&& final(self)@ == judged(old(self)@, v)
                    &&& r == (steps_after(old(self)@.pending, v).len() == 0 && !is_blocked(v))
                },
                None => final(self)@ == old(self)@ && !r,
            },
    {
        match text {
            None => false,
            Some(t) => match parse_toml(t.as_str()) {
                Err(_) => false,
                Ok(data) => {
                    let empty = match &data {
                        Toml::Table(e) => {
                            assert(data@->Table_0.len() == e@.len());
                            e.len() == 0
                        },
                        _ => true,
                    };
                    if empty {
                        false
                    } else {
                        self.apply_review_data(&data)
                    }
                },
            },
        }
    }

    /// The first stage of the run.
    pub fn first_stage(&self) -> (r: Stage)
        ensures
            r == first_stage(self@.agent_loops),
            self@.agent_loops > 0 ==> r == Stage::Author(1),
            self@.agent_loops == 0 ==> r is Done,
    {
        if self.agent_loops == 0 {
            Stage::Done
        } else {
            Stage::Author(1)
        }
    }

    /// The stage that follows the author's. Where the author says that the task is
    /// complete, nothing is left to be done.
    pub fn after_author(&mut self, loop_index: u32, status: Option<Status>) -> (r: Stage)
        ensures
            r == stage_after(Stage::Author(loop_index), status == Some(Status::Complete), old(self)@.agent_loops),
            r == (if status == Some(Status::Complete) { Stage::Done } else { Stage::Review(loop_index) }),
            final(self)@ == if status == Some(Status::Complete) {
                RunnerView { pending: Seq::empty(), ..old(self)@ }
            } else {
                old(self)@
            },
    {
        match status {
            Some(Status::Complete) => {
                self.pending_items = Vec::new();
                assert(texts(self.pending_items@) =~= Seq::empty());
                Stage::Done
            },
            _ => Stage::Review(loop_index),
        }
    }

    /// The stage that follows the review's.
    pub fn after_review(&self, loop_index: u32, finished: bool) -> (r: Stage)
        ensures
            r == stage_after(Stage::Review(loop_index), finished, self@.agent_loops),
            r is Done <==> finished || loop_index >= self@.agent_loops,
            r is Done || r == Stage::Author((loop_index + 1) as u32),
    {
        if finished || loop_index >= self.agent_loops {
            Stage::Done
        } else {
            Stage::Author(loop_index + 1)
        }
    }

    /// What is said when the loop is over.
    pub fn closing_text(&self) -> (r: String)
        ensures
            r@ == closing_text(self@),
    {
        let mut out = String::from_str("completed ");
        out.append(decimal_text(self.loops_completed as u64).as_str());
        out.append("/");
        out.append(decimal_text(self.agent_loops as u64).as_str());
        out.append(" loop(s) — run: ");
        out.append(self.run_id.as_str());
        out.append(" — artifacts: ");
        out.append(self.paths.run_dir.as_str());
        out
    }
}

// ---------------------------------------------------------------------------
// What is shown of the progress
// ---------------------------------------------------------------------------

/// What is shown when a phase begins.
pub fn phase_banner(loop_index: u32, phase: &str) -> (r: String)
    ensures
        r@ == "\n▶  loop "@ + decimal(loop_index as nat) + " ["@ + phase@ + "]"@,
{
    let mut out = String::from_str("\n▶  loop ");
    out.append(decimal_text(loop_index as u64).as_str());
    out.append(" [");
    out.append(phase);
    out.append("]");
    out
}

/// What is shown when the author says that the task is complete.
pub fn author_done_note(loop_index: u32) -> (r: String)
    ensures
        r@ == "\n✓ author agent reported STATUS: COMPLETE after loop "@ + decimal(loop_index as nat)
            + " — task complete, stopping early."@,
{
    let mut out = String::from_str("\n✓ author agent reported STATUS: COMPLETE after loop ");
    out.append(decimal_text(loop_index as u64).as_str());
    out.append(" — task complete, stopping early.");
    out
}

/// What is shown when the review leaves nothing to be done.
pub fn review_done_note(loop_index: u32) -> (r: String)
    ensures
        r@ == "\n✓ No pending items and no blocker after loop "@ + decimal(loop_index as nat)
            + " — task complete, stopping early."@,
{
    let mut out = String::from_str("\n✓ No pending items and no blocker after loop ");
    out.append(decimal_text(loop_index as u64).as_str());
    out.append(" — task complete, stopping early.");
    out
}

// ---------------------------------------------------------------------------
// Laws
// ---------------------------------------------------------------------------

/// The run is bounded: whatever the agents find, no loop beyond the last is entered, a
/// loop is entered after two stages for each before it, and after two stages for each
/// loop the run is over.
pub proof fn law_run_is_bounded(agent_loops: u32, findings: Seq<bool>)
    ensures
        match stage_reached(agent_loops, findings) {
            Stage::Author(i) => 1 <= i <= agent_loops && findings.len() == 2 * (i - 1),
            Stage::Review(i) => 1 <= i <= agent_loops && findings.len() == 2 * (i - 1) + 1,
            Stage::Done => true,
        },
        findings.len() >= 2 * agent_loops ==> stage_reached(agent_loops, findings) is Done,
    decreases findings.len(),
{
    if findings.len() > 0 {
        law_run_is_bounded(agent_loops, findings.drop_last());
    }
}

/// The run is not over before its loops are used up: while no agent has found the task
/// to be complete, author and review take turns, loop by loop, through the last.
pub proof fn law_all_loops_are_used(agent_loops: u32, findings: Seq<bool>)
    requires
        forall|k: int| 0 <= k < findings.len() ==> !#[trigger] findings[k],
        findings.len() < 2 * agent_loops,
    ensures
        findings.len() % 2 == 0 ==> stage_reached(agent_loops, findings) == Stage::Author(
            (findings.len() / 2 + 1) as u32,
        ),
        findings.len() % 2 == 1 ==> stage_reached(agent_loops, findings) == Stage::Review(
            (findings.len() / 2 + 1) as u32,
        ),
    decreases findings.len(),
{
    if findings.len() > 0 {
        let before = findings.drop_last();
        assert forall|k: int| 0 <= k < before.len() implies !#[trigger] before[k] by {
            assert(before[k] == findings[k]);
        }
        law_all_loops_are_used(agent_loops, before);
        assert(!findings[findings.len() - 1]);
    }
}

/// The run is over only where an agent has found the task to be complete, or all loops
/// are used up.
pub proof fn law_run_ends_for_a_reason(agent_loops: u32, findings: Seq<bool>)
    requires
        stage_reached(agent_loops, findings) is Done,
    ensures
        findings.contains(true) || findings.len() >= 2 * agent_loops,
{
    if !findings.contains(true) && findings.len() < 2 * agent_loops {
        assert forall|k: int| 0 <= k < findings.len() implies !#[trigger] findings[k] by {
            if findings[k] {
                assert(findings.contains(true));
            }
        }
        law_all_loops_are_used(agent_loops, findings);
    }
}

/// The stages of a run are those that its steps give, one after the other.
pub proof fn law_stages_follow_each_other(agent_loops: u32, findings: Seq<bool>, finished: bool)
    ensures
        stage_reached(agent_loops, findings.push(finished)) == stage_after(
            stage_reached(agent_loops, findings),
            finished,
            agent_loops,
        ),
        stage_reached(agent_loops, Seq::empty()) == first_stage(agent_loops),
{
    assert(findings.push(finished).drop_last() =~= findings);
}

/// The next steps of a verdict are all the texts that it lists, and the texts under
/// `item` in its tables, in order; empty ones are left out.
pub proof fn law_all_steps_are_taken(items: Seq<TomlView>)
    ensures
        steps_of(items) == items.filter_map(
            |t: TomlView|
                match (t, t.get_str("item"@)) {
                    (TomlView::Str(s), _) if s.len() > 0 => Some(s),
                    (TomlView::Table(_), Some(s)) if s.len() > 0 => Some(s),
                    _ => None,
                },
        ),
    decreases items.len(),
{
    if items.len() > 0 {
        law_all_steps_are_taken(items.drop_last());
    }
}

/// A review is entered from the author of the same loop, who did not find the task to
/// be complete, and from nowhere else.
pub proof fn law_review_follows_author(stage: Stage, finished: bool, agent_loops: u32, i: u32)
    ensures
        stage_after(stage, finished, agent_loops) == Stage::Review(i) <==> stage == Stage::Author(i) && !finished,
{
}

/// An agent that finds the task to be complete ends the run, and it stays over.
pub proof fn law_completion_ends_run(agent_loops: u32, findings: Seq<bool>, k: int)
    requires
        0 <= k < findings.len(),
        findings[k],
    ensures
        stage_reached(agent_loops, findings) is Done,
    decreases findings.len(),
{
    if k < findings.len() - 1 {
        law_completion_ends_run(agent_loops, findings.drop_last(), k);
    }
}

/// What the agents may do is fixed when the run begins: nothing that happens in it, a
/// changed task file included, gives an author or a review other tools, commands or
/// protected paths.
pub proof fn law_policy_is_fixed(
    r: RunnerView,
    mtime: Option<i128>,
    messages: Seq<MessageView>,
    loop_index: u32,
    phase: Seq<char>,
    result: RunResult,
    verdict: TomlView,
    tools: Seq<Tool>,
)
    ensures
        authors_tools(reloaded(r, mtime, messages), tools) == authors_tools(r, tools),
        authors_tools(entered(r, loop_index, phase), tools) == authors_tools(r, tools),
        authors_tools(authored(r, loop_index, result), tools) == authors_tools(r, tools),
        authors_tools(counted(r, loop_index), tools) == authors_tools(r, tools),
        authors_tools(judged(r, verdict), tools) == authors_tools(r, tools),
        review_tools(reloaded(r, mtime, messages), tools) == review_tools(r, tools),
        review_tools(entered(r, loop_index, phase), tools) == review_tools(r, tools),
        review_tools(authored(r, loop_index, result), tools) == review_tools(r, tools),
        review_tools(counted(r, loop_index), tools) == review_tools(r, tools),
        review_tools(judged(r, verdict), tools) == review_tools(r, tools),
{
}

/// No step that is taken over from a verdict is empty.
pub proof fn law_steps_say_something(items: Seq<TomlView>, i: int)
    requires
        0 <= i < steps_of(items).len(),
    ensures
        steps_of(items)[i].len() > 0,
    decreases items.len(),
{
    if items.len() > 0 && i < steps_of(items.drop_last()).len() {
        law_steps_say_something(items.drop_last(), i);
    }
}

/// What an author's work leaves: one more summary behind the others, and the next steps
/// that the answer gives, five at most; nothing else changes.
pub proof fn law_author_is_recorded(r: RunnerView, loop_index: u32, result: RunResult)
    ensures
        ({
            let t = authored(r, loop_index, result);
            let steps = items_in(lines_of(answer_of(result)), false);
            &&& t.summaries.len() == r.summaries.len() + 1
            &&& t.summaries.drop_last() == r.summaries
            &&& t.summaries.last() == summary_of_run(loop_index, result)
            &&& steps.len() <= 5 ==> t.pending == steps
            &&& steps.len() > 5 ==> t.pending == steps.take(5)
            &&& t == (RunnerView { summaries: t.summaries, pending: t.pending, ..r })
        }),
        result.final_text matches Some(t) ==> answer_of(result) == t@,
        result.final_text is None ==> answer_of(result).len() == 0,
{
    let t = authored(r, loop_index, result);
    assert(t.summaries.drop_last() =~= r.summaries);
}

/// A verdict replaces the next steps where it lists any, be it an empty list, and leaves
/// them where it does not; nothing else changes.
pub proof fn law_verdict_replaces_the_steps(r: RunnerView, verdict: TomlView)
    ensures
        verdict.get("pending"@) matches Some(TomlView::Array(items)) ==> judged(r, verdict).pending == steps_of(items),
        !(verdict.get("pending"@) matches Some(v) && v is Array) ==> judged(r, verdict).pending == r.pending,
        judged(r, verdict) == (RunnerView { pending: judged(r, verdict).pending, ..r }),
        is_blocked(verdict) <==> (verdict.get_str("blocker"@) matches Some(b) && b.len() > 0),
{
}

/// A verdict is a table that is not empty; of anything else there is none.
pub proof fn law_verdict_is_a_table(text: Seq<char>)
    ensures
        verdict_of(None) is None,
        verdict_of(Some(text)) is Some <==> (toml_parse(text) matches Ok(TomlView::Table(e)) && e.len() > 0),
        verdict_of(Some(text)) matches Some(v) ==> toml_parse(text) == Ok::<TomlView, Seq<char>>(v),
{
}

/// Progress is counted in full: the tokens of all loops, and the number of the last one;
/// nothing else changes.
pub proof fn law_progress_is_counted(r: RunnerView, loop_index: u32)
    ensures
        ({
            let t = counted(r, loop_index);
            &&& t.run.loops_completed == loop_index
            &&& t.run.tokens == token_sums(r.summaries)
            &&& t.run == (RunView { tokens: t.run.tokens, loops_completed: loop_index, ..r.run })
            &&& t == (RunnerView { run: t.run, ..r })
        }),
{
}

/// A task file that was read again gives the conversation, message by message, and the
/// time; a phase that is entered gives its name and its loop. Nothing else changes.
pub proof fn law_run_goes_on_as_told(
    r: RunnerView,
    mtime: Option<i128>,
    messages: Seq<MessageView>,
    loop_index: u32,
    phase: Seq<char>,
    i: int,
)
    ensures
        ({
            let t = reloaded(r, mtime, messages);
            &&& t.task_mtime == mtime
            &&& t.chat.len() == messages.len()
            &&& 0 <= i < messages.len() ==> t.chat[i] == message(messages[i].role, JsonView::Str(messages[i].content))
            &&& t == (RunnerView { chat: t.chat, task_mtime: mtime, ..r })
        }),
        ({
            let t = entered(r, loop_index, phase);
            &&& t.state.loop_index == loop_index
            &&& t.state.phase == phase
            &&& t.state == (StateView { loop_index, phase, ..r.state })
            &&& t == (RunnerView { state: t.state, ..r })
        }),
{
}

/// A review has half of the iterations of an author, but six where that is fewer, and
/// never more than an author has.
pub proof fn law_review_has_its_share(agent_iterations: u32)
    ensures
        agent_iterations >= 12 ==> review_budget(agent_iterations) == agent_iterations / 2,
        6 <= agent_iterations <= 12 ==> review_budget(agent_iterations) == 6,
        agent_iterations <= 6 ==> review_budget(agent_iterations) == agent_iterations,
{
}

/// A run begins with its own names and limits in its record, nothing used and no loop
/// done, and idle.
pub proof fn law_run_is_opened(r: RunnerView, now: Seq<char>)
    ensures
        ({
            let a = opening_record(r, now);
            &&& a.run_id == r.run_id && a.workdir == r.workdir && a.task_file == r.task_path && a.model == r.model
            &&& a.agent_loops == r.agent_loops && a.agent_iterations == r.agent_iterations && a.created_at == now
            &&& a.loops_completed == 0
            &&& a.tokens.input == 0 && a.tokens.output == 0 && a.tokens.cache_write == 0 && a.tokens.cache_read == 0
        }),
        ({
            let b = opening_state(r, now);
            &&& b.run_id == r.run_id && b.workdir == r.workdir && b.task_file == r.task_path
            &&& b.loop_index == 0 && b.phase == "idle"@ && b.updated_at == now
        }),
{
}

/// A path is named from a directory where it lies in it; any other path is named as it is.
pub proof fn law_path_is_named_from_directory(path: Seq<char>, base: Seq<char>)
    ensures
        lies_in(path, base) ==> Some(named_from(path, base)) == relative_of(path, base),
        !lies_in(path, base) ==> named_from(path, base) == path,
{
}

/// The task file is read again exactly where it was last changed at another moment than
/// the one that was noted when it was read.
pub proof fn law_task_file_is_read_again_iff_changed(r: PromptLoopRunner, at: Option<i128>, again: bool)
    requires
        call_ensures(PromptLoopRunner::needs_reload, (&r, at), again),
    ensures
        again <==> r@.task_mtime != at,
{
}

/// The task file is shown to the author of the first loop alone: later ones go by what is
/// left to do.
pub proof fn law_task_file_is_shown_once(r: PromptLoopRunner, index: u32, shown: Option<String>)
    requires
        call_ensures(PromptLoopRunner::initial_task_file, (&r, index), shown),
    ensures
        shown is Some <==> index == 1,
        shown is Some && !is_absolute_of(r@.task_rel) ==> r@.task_rel.is_suffix_of(shown->0@),
{
    if shown is Some && !is_absolute_of(r@.task_rel) {
        let whole = shown->0@;
        let n = whole.len() - r@.task_rel.len();
        assert(maybe_text(shown) == Some(whole));
        assert(whole.skip(n) =~= r@.task_rel);
    }
}

/// Whatever the author does is logged in the run's directory, and besides where the caller
/// asks for a log. A review is logged apart from it.
pub proof fn law_author_and_review_are_logged(r: PromptLoopRunner, logs: Vec<ToolLogToml>, log: ToolLogToml)
    requires
        call_ensures(PromptLoopRunner::build_author_logging, (&r,), logs),
        call_ensures(PromptLoopRunner::build_review_logging, (&r,), log),
        r@.paths.author_toml@.len() > 0,
    ensures
        logs@.len() > 0 && logs@[0].path@ == r@.paths.author_toml@,
        r@.logging is None ==> logs@.len() == 1,
        r@.logging matches Some(asked) ==> logs@.len() == 2 && (asked.len() > 0 ==> logs@[1].path@ == asked),
        log.path@ == join_path_of(r@.paths.run_dir@, "review.toml"@),
{
}

/// A path is taken as it is exactly where its first components are those of the working
/// directory.
pub proof fn law_path_must_lie_in_workdir(path: &str, workdir: &str, r: Result<String, String>)
    requires
        call_ensures(ensure_within_workdir, (path, workdir), r),
    ensures
        r is Ok <==> components_of(workdir@).is_prefix_of(components_of(path@)),
        r is Ok ==> r->Ok_0@ == path@,
{
}

/// The end of a run tells how many loops are done, of how many, and where the artifacts
/// lie.
pub proof fn law_end_tells_the_progress(r: RunnerView)
    ensures
        ("completed "@ + decimal(r.loops_completed as nat) + "/"@ + decimal(r.agent_loops as nat)).is_prefix_of(
            closing_text(r),
        ),
        (r.run_id + " — artifacts: "@ + r.paths.run_dir@).is_suffix_of(closing_text(r)),
{
    let all = closing_text(r);
    let head = "completed "@ + decimal(r.loops_completed as nat) + "/"@ + decimal(r.agent_loops as nat);
    let tail = r.run_id + " — artifacts: "@ + r.paths.run_dir@;
    assert(all =~= head + " loop(s) — run: "@ + tail);
    assert(all.subrange(0, head.len() as int) =~= head);
    assert(all.subrange(all.len() - tail.len(), all.len() as int) =~= tail);
}

} // verus!
