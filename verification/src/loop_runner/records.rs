//! The records of a run that are kept beside the work.
use vstd::prelude::*;

use crate::agent::events::says;
use crate::json::{entries_view, entry, object, signed_value, text_value, whole, Json, JsonView};
use crate::std_text::{quote, quoted};
use crate::text::same;
use super::summaries::{summaries_view, LoopSummary, SummaryView};

verus! {

// ---------------------------------------------------------------------------
// Tokens
// ---------------------------------------------------------------------------

/// How many tokens the loops have used.
pub struct TokenSums {
    pub input: int,
    pub output: int,
    pub cache_write: int,
    pub cache_read: int,
}

/// How many tokens the loops have used.
pub open spec fn token_sums(loops: Seq<SummaryView>) -> TokenSums
    decreases loops.len(),
{
    if loops.len() == 0 {
        TokenSums { input: 0, output: 0, cache_write: 0, cache_read: 0 }
    } else {
        let front = token_sums(loops.drop_last());
        let last = loops.last();
        TokenSums {
            input: front.input + last.total_input_tokens,
            output: front.output + last.total_output_tokens,
            cache_write: front.cache_write + last.total_cache_creation_tokens,
            cache_read: front.cache_read + last.total_cache_read_tokens,
        }
    }
}

/// The four sums fit in 64 bits each.
pub open spec fn sums_fit(t: TokenSums) -> bool {
    t.input <= u64::MAX && t.output <= u64::MAX && t.cache_write <= u64::MAX && t.cache_read <= u64::MAX
}

/// The sums of the first loops are no larger than those of all.
proof fn lemma_sums_grow(loops: Seq<SummaryView>, k: int)
    requires
        0 <= k <= loops.len(),
    ensures
        0 <= token_sums(loops.take(k)).input <= token_sums(loops).input,
        0 <= token_sums(loops.take(k)).output <= token_sums(loops).output,
        0 <= token_sums(loops.take(k)).cache_write <= token_sums(loops).cache_write,
        0 <= token_sums(loops.take(k)).cache_read <= token_sums(loops).cache_read,
    decreases loops.len(),
{
    if k == loops.len() {
        assert(loops.take(k) =~= loops);
        if k > 0 {
            lemma_sums_grow(loops.drop_last(), k - 1);
        }
    } else {
        lemma_sums_grow(loops.drop_last(), k);
        assert(loops.drop_last().take(k) =~= loops.take(k));
    }
}

/// Whether the sums of the tokens fit in 64 bits each.
pub fn tokens_fit(summaries: &Vec<LoopSummary>) -> (r: bool)
    ensures
        r == sums_fit(token_sums(summaries_view(summaries@))),
{
    let ghost all = summaries_view(summaries@);
    let mut input: u64 = 0;
    let mut output: u64 = 0;
    let mut cache_write: u64 = 0;
    let mut cache_read: u64 = 0;
    assert(all.take(0) =~= Seq::empty());
    for i in 0..summaries.len()
        invariant
            all == summaries_view(summaries@),
            token_sums(all.take(i as int)) == (TokenSums {
                input: input as int,
                output: output as int,
                cache_write: cache_write as int,
                cache_read: cache_read as int,
            }),
    {
        let s = &summaries[i];
        proof {
            lemma_sums_grow(all, i + 1);
            assert(all.take(i + 1).drop_last() =~= all.take(i as int));
            assert(all.take(i + 1).last() == s@);
        }
        if s.total_input_tokens > u64::MAX - input || s.total_output_tokens > u64::MAX - output
            || s.total_cache_creation_tokens > u64::MAX - cache_write || s.total_cache_read_tokens > u64::MAX
            - cache_read {
            return false;
        }
        input = input + s.total_input_tokens;
        output = output + s.total_output_tokens;
        cache_write = cache_write + s.total_cache_creation_tokens;
        cache_read = cache_read + s.total_cache_read_tokens;
    }
    assert(all.take(summaries@.len() as int) =~= all);
    true
}

// ---------------------------------------------------------------------------
// The record of the run
// ---------------------------------------------------------------------------

/// The record of a run.
pub struct RunToml {
    pub run_id: String,
    pub created_at: String,
    pub workdir: String,
    pub task_file: String,
    pub model: String,
    pub agent_loops: u32,
    pub agent_iterations: u32,
    pub cumulative_input_tokens: u64,
    pub cumulative_output_tokens: u64,
    pub cumulative_cache_creation_tokens: u64,
    pub cumulative_cache_read_tokens: u64,
    pub loops_completed: u32,
}

/// What the record of a run says.
pub struct RunView {
    pub run_id: Seq<char>,
    pub created_at: Seq<char>,
    pub workdir: Seq<char>,
    pub task_file: Seq<char>,
    pub model: Seq<char>,
    pub agent_loops: u32,
    pub agent_iterations: u32,
    pub tokens: TokenSums,
    pub loops_completed: u32,
}

impl RunToml {
    /// What the record says.
    pub open spec fn view(&self) -> RunView {
        RunView {
            run_id: self.run_id@,
            created_at: self.created_at@,
            workdir: self.workdir@,
            task_file: self.task_file@,
            model: self.model@,
            agent_loops: self.agent_loops,
            agent_iterations: self.agent_iterations,
            tokens: TokenSums {
                input: self.cumulative_input_tokens as int,
                output: self.cumulative_output_tokens as int,
                cache_write: self.cumulative_cache_creation_tokens as int,
                cache_read: self.cumulative_cache_read_tokens as int,
            },
            loops_completed: self.loops_completed,
        }
    }
}

/// Sets the tokens of a record to what the loops have used.
pub fn update_cumulative_tokens(run_toml_data: &mut RunToml, summaries: &Vec<LoopSummary>)
    requires
        sums_fit(token_sums(summaries_view(summaries@))),
    ensures
        final(run_toml_data)@ == (RunView {
            tokens: token_sums(summaries_view(summaries@)),
            ..old(run_toml_data)@
        }),
{
    let ghost all = summaries_view(summaries@);
    let mut input: u64 = 0;
    let mut output: u64 = 0;
    let mut cache_write: u64 = 0;
    let mut cache_read: u64 = 0;
    assert(all.take(0) =~= Seq::empty());
    for i in 0..summaries.len()
        invariant
            all == summaries_view(summaries@),
            sums_fit(token_sums(all)),
            token_sums(all.take(i as int)) == (TokenSums {
                input: input as int,
                output: output as int,
                cache_write: cache_write as int,
                cache_read: cache_read as int,
            }),
    {
        let s = &summaries[i];
        proof {
            lemma_sums_grow(all, i + 1);
            assert(all.take(i + 1).drop_last() =~= all.take(i as int));
            assert(all.take(i + 1).last() == s@);
        }
        input = input + s.total_input_tokens;
        output = output + s.total_output_tokens;
        cache_write = cache_write + s.total_cache_creation_tokens;
        cache_read = cache_read + s.total_cache_read_tokens;
    }
    assert(all.take(summaries@.len() as int) =~= all);
    run_toml_data.cumulative_input_tokens = input;
    run_toml_data.cumulative_output_tokens = output;
    run_toml_data.cumulative_cache_creation_tokens = cache_write;
    run_toml_data.cumulative_cache_read_tokens = cache_read;
}

/// A count of tokens is larger than a TOML integer.
pub open spec fn too_large(t: TokenSums) -> bool {
    t.input > i64::MAX || t.output > i64::MAX || t.cache_write > i64::MAX || t.cache_read > i64::MAX
}

/// The record of a run as a table.
pub open spec fn run_table(r: RunView) -> JsonView {
    JsonView::Object(
        seq![
            ("agent_iterations"@, whole(r.agent_iterations as int)),
            ("agent_loops"@, whole(r.agent_loops as int)),
            ("created_at"@, JsonView::Str(r.created_at)),
            ("cumulative_cache_creation_tokens"@, whole(r.tokens.cache_write)),
            ("cumulative_cache_read_tokens"@, whole(r.tokens.cache_read)),
            ("cumulative_input_tokens"@, whole(r.tokens.input)),
            ("cumulative_output_tokens"@, whole(r.tokens.output)),
            ("loops_completed"@, whole(r.loops_completed as int)),
            ("model"@, JsonView::Str(r.model)),
            ("run_id"@, JsonView::Str(r.run_id)),
            ("task_file"@, JsonView::Str(r.task_file)),
            ("workdir"@, JsonView::Str(r.workdir)),
        ],
    )
}

impl RunToml {
    /// The record as a table. A count that no TOML integer can hold is refused.
    pub fn table(&self) -> (r: Result<Json, String>)
        ensures
            match r {
                Ok(j) => !too_large(self@.tokens) && j@ == run_table(self@),
                Err(e) => too_large(self@.tokens) && e@ == "u64 value was too large"@,
            },
    {
        let limit: u64 = 0x7fff_ffff_ffff_ffff;
        if self.cumulative_input_tokens > limit || self.cumulative_output_tokens > limit
            || self.cumulative_cache_creation_tokens > limit || self.cumulative_cache_read_tokens > limit {
            return Err(String::from_str("u64 value was too large"));
        }
        let rows = vec![
            entry("agent_iterations", signed_value(self.agent_iterations as i64)),
            entry("agent_loops", signed_value(self.agent_loops as i64)),
            entry("created_at", text_value(self.created_at.as_str())),
            entry("cumulative_cache_creation_tokens", signed_value(self.cumulative_cache_creation_tokens as i64)),
            entry("cumulative_cache_read_tokens", signed_value(self.cumulative_cache_read_tokens as i64)),
            entry("cumulative_input_tokens", signed_value(self.cumulative_input_tokens as i64)),
            entry("cumulative_output_tokens", signed_value(self.cumulative_output_tokens as i64)),
            entry("loops_completed", signed_value(self.loops_completed as i64)),
            entry("model", text_value(self.model.as_str())),
            entry("run_id", text_value(self.run_id.as_str())),
            entry("task_file", text_value(self.task_file.as_str())),
            entry("workdir", text_value(self.workdir.as_str())),
        ];
        assert(entries_view(rows@) =~= run_table(self@)->Object_0);
        Ok(object(rows))
    }
}

// ---------------------------------------------------------------------------
// The record of where the run is
// ---------------------------------------------------------------------------

/// Where a run is.
pub struct StateToml {
    pub run_id: String,
    pub workdir: String,
    pub task_file: String,
    pub loop_index: u32,
    pub phase: String,
    pub updated_at: String,
}

/// What is said of where a run is.
pub struct StateView {
    pub run_id: Seq<char>,
    pub workdir: Seq<char>,
    pub task_file: Seq<char>,
    pub loop_index: u32,
    pub phase: Seq<char>,
    pub updated_at: Seq<char>,
}

/// The phase is one that a run can be in.
pub open spec fn is_phase(phase: Seq<char>) -> bool {
    phase == "idle"@ || phase == "author"@ || phase == "review"@
}

/// What is wrong with a state, if anything is.
pub open spec fn state_fault(s: StateView) -> Option<Seq<char>> {
    if s.run_id.len() == 0 {
        Some("state.run_id must be a non-empty string"@)
    } else if !is_phase(s.phase) {
        Some("state.phase must be one of [\"idle\", \"author\", \"review\"], got "@ + quoted(s.phase))
    } else {
        None
    }
}

impl StateToml {
    /// What the state says.
    pub open spec fn view(&self) -> StateView {
        StateView {
            run_id: self.run_id@,
            workdir: self.workdir@,
            task_file: self.task_file@,
            loop_index: self.loop_index,
            phase: self.phase@,
            updated_at: self.updated_at@,
        }
    }

    /// The state as it is written at a time, where nothing is wrong with it.
    pub fn checked(&self, now: &str) -> (r: Result<StateToml, String>)
        ensures
            match r {
                Ok(s) => state_fault(self@) is None && s@ == (StateView { updated_at: now@, ..self@ }),
                Err(e) => state_fault(self@) == Some(e@),
            },
    {
        if self.run_id.as_str().is_empty() {
            return Err(String::from_str("state.run_id must be a non-empty string"));
        }
        let phase = self.phase.as_str();
        if !same(phase, "idle") && !same(phase, "author") && !same(phase, "review") {
            let mut text = String::from_str("state.phase must be one of [\"idle\", \"author\", \"review\"], got ");
            text.append(quote(phase).as_str());
            return Err(text);
        }
        Ok(
            StateToml {
                run_id: self.run_id.clone(),
                workdir: self.workdir.clone(),
                task_file: self.task_file.clone(),
                loop_index: self.loop_index,
                phase: self.phase.clone(),
                updated_at: String::from_str(now),
            },
        )
    }
}

// ---------------------------------------------------------------------------
// Laws
// ---------------------------------------------------------------------------

/// A further loop adds the tokens that it has used.
pub proof fn law_tokens_add_up(loops: Seq<SummaryView>, s: SummaryView)
    ensures
        token_sums(loops.push(s)).input == token_sums(loops).input + s.total_input_tokens,
        token_sums(loops.push(s)).output == token_sums(loops).output + s.total_output_tokens,
        token_sums(loops.push(s)).cache_write == token_sums(loops).cache_write + s.total_cache_creation_tokens,
        token_sums(loops.push(s)).cache_read == token_sums(loops).cache_read + s.total_cache_read_tokens,
{
    assert(loops.push(s).drop_last() =~= loops);
}

/// The loops together have used what they have used one by one.
pub proof fn law_loops_add_up(a: Seq<SummaryView>, b: Seq<SummaryView>)
    ensures
        token_sums(a + b).input == token_sums(a).input + token_sums(b).input,
        token_sums(a + b).output == token_sums(a).output + token_sums(b).output,
        token_sums(a + b).cache_write == token_sums(a).cache_write + token_sums(b).cache_write,
        token_sums(a + b).cache_read == token_sums(a).cache_read + token_sums(b).cache_read,
        token_sums(Seq::empty()) == (TokenSums { input: 0, output: 0, cache_write: 0, cache_read: 0 }),
    decreases b.len(),
{
    if b.len() == 0 {
        assert(a + b =~= a);
    } else {
        assert((a + b).drop_last() =~= a + b.drop_last());
        law_loops_add_up(a, b.drop_last());
    }
}

/// The record of a run says all that is known of it, each under its own name.
pub proof fn law_run_is_recorded(r: RunView)
    ensures
        ({
            let v = run_table(r);
            &&& says(v, "run_id"@, JsonView::Str(r.run_id))
            &&& says(v, "created_at"@, JsonView::Str(r.created_at))
            &&& says(v, "workdir"@, JsonView::Str(r.workdir))
            &&& says(v, "task_file"@, JsonView::Str(r.task_file))
            &&& says(v, "model"@, JsonView::Str(r.model))
            &&& says(v, "agent_loops"@, whole(r.agent_loops as int))
            &&& says(v, "agent_iterations"@, whole(r.agent_iterations as int))
            &&& says(v, "loops_completed"@, whole(r.loops_completed as int))
            &&& says(v, "cumulative_input_tokens"@, whole(r.tokens.input))
            &&& says(v, "cumulative_output_tokens"@, whole(r.tokens.output))
            &&& says(v, "cumulative_cache_creation_tokens"@, whole(r.tokens.cache_write))
            &&& says(v, "cumulative_cache_read_tokens"@, whole(r.tokens.cache_read))
        }),
{
    let e = run_table(r)->Object_0;
    assert(e[0].0 == "agent_iterations"@ && e[1].0 == "agent_loops"@ && e[2].0 == "created_at"@);
    assert(e[3].0 == "cumulative_cache_creation_tokens"@ && e[4].0 == "cumulative_cache_read_tokens"@);
    assert(e[5].0 == "cumulative_input_tokens"@ && e[6].0 == "cumulative_output_tokens"@);
    assert(e[7].0 == "loops_completed"@ && e[8].0 == "model"@ && e[9].0 == "run_id"@);
    assert(e[10].0 == "task_file"@ && e[11].0 == "workdir"@);
}

/// A state is sound exactly where it names its run and one of the three phases.
pub proof fn law_state_is_sound_iff(s: StateView)
    ensures
        state_fault(s) is None <==> s.run_id.len() > 0 && (s.phase == "idle"@ || s.phase == "author"@ || s.phase
            == "review"@),
        s.run_id.len() == 0 ==> state_fault(s) == Some("state.run_id must be a non-empty string"@),
        s.run_id.len() > 0 && state_fault(s) is Some ==> state_fault(s) == Some(
            "state.phase must be one of [\"idle\", \"author\", \"review\"], got "@ + quoted(s.phase),
        ),
{
}

/// A run can be recorded exactly where none of its four counts exceeds what a TOML integer
/// holds; and counts that can be recorded fit in 64 bits.
pub proof fn law_counts_must_be_recordable(t: TokenSums)
    ensures
        !too_large(t) <==> t.input <= 0x7fff_ffff_ffff_ffff && t.output <= 0x7fff_ffff_ffff_ffff && t.cache_write
            <= 0x7fff_ffff_ffff_ffff && t.cache_read <= 0x7fff_ffff_ffff_ffff,
        !too_large(t) ==> sums_fit(t),
{
}

} // verus!
