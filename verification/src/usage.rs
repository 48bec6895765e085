//! Token counts.
use vstd::prelude::*;

use crate::json::{maybe_ref, Json, JsonView};

verus! {

/// How many tokens were used, by kind.
#[derive(Clone, Copy)]
pub struct TokenUsage {
    pub input: u64,
    pub output: u64,
    pub reasoning: u64,
    pub cache_write: u64,
    pub cache_read: u64,
}

/// The count under `key`, or none.
pub open spec fn count_at(usage: JsonView, key: Seq<char>) -> int {
    match usage.get_u64(key) {
        Some(n) => n,
        None => 0,
    }
}

/// The count under `first`, or else under `second`, or else none.
pub open spec fn count_at_either(usage: JsonView, first: Seq<char>, second: Seq<char>) -> int {
    match usage.get_u64(first) {
        Some(n) => n,
        None => count_at(usage, second),
    }
}

/// The counts that a provider reports. Either of two names is understood for what
/// went in and for what came out.
pub open spec fn usage_of(usage: Option<JsonView>) -> TokenUsage {
    match usage {
        None => TokenUsage { input: 0, output: 0, reasoning: 0, cache_write: 0, cache_read: 0 },
        Some(u) => TokenUsage {
            input: count_at_either(u, "prompt_tokens"@, "input_tokens"@) as u64,
            output: count_at_either(u, "completion_tokens"@, "output_tokens"@) as u64,
            reasoning: count_at(u, "reasoning_tokens"@) as u64,
            cache_write: count_at(u, "cache_creation_input_tokens"@) as u64,
            cache_read: count_at(u, "cache_read_input_tokens"@) as u64,
        },
    }
}

impl TokenUsage {
    /// The sum of the counts; reasoning is part of the output.
    pub open spec fn sum(self) -> int {
        self.input + self.output + self.cache_write + self.cache_read
    }

    /// The counts can be added up kind by kind.
    pub open spec fn addable(self, other: TokenUsage) -> bool {
        &&& self.input + other.input <= u64::MAX
        &&& self.output + other.output <= u64::MAX
        &&& self.reasoning + other.reasoning <= u64::MAX
        &&& self.cache_write + other.cache_write <= u64::MAX
        &&& self.cache_read + other.cache_read <= u64::MAX
    }

    /// The counts added up kind by kind.
    pub open spec fn plus(self, other: TokenUsage) -> TokenUsage {
        TokenUsage {
            input: (self.input + other.input) as u64,
            output: (self.output + other.output) as u64,
            reasoning: (self.reasoning + other.reasoning) as u64,
            cache_write: (self.cache_write + other.cache_write) as u64,
            cache_read: (self.cache_read + other.cache_read) as u64,
        }
    }

    /// The sum of the counts; reasoning is part of the output.
    pub fn total(&self) -> (r: u64)
        requires
            self.sum() <= u64::MAX,
        ensures
            r == self.sum(),
    {
        self.input + self.output + self.cache_write + self.cache_read
    }

    /// Whether the sum of the counts fits 64 bits.
    pub fn total_fits(&self) -> (r: bool)
        ensures
            r == (self.sum() <= u64::MAX),
    {
        let max = u64::MAX;
        self.output <= max - self.input && self.cache_write <= max - self.input - self.output && self.cache_read <= max
            - self.input - self.output - self.cache_write
    }

    /// Whether the counts can be added up kind by kind.
    pub fn can_add(&self, other: &TokenUsage) -> (r: bool)
        ensures
            r == self.addable(*other),
    {
        let max = u64::MAX;
        self.input <= max - other.input && self.output <= max - other.output && self.reasoning <= max - other.reasoning
            && self.cache_write <= max - other.cache_write && self.cache_read <= max - other.cache_read
    }

    /// Adds the other counts to these, kind by kind.
    pub fn add_assign(&mut self, other: TokenUsage)
        requires
            old(self).addable(other),
        ensures
            *final(self) == old(self).plus(other),
    {
        *self = *self + other;
    }

    /// The counts that a provider reports.
    pub fn from_raw(usage: Option<&Json>) -> (r: TokenUsage)
        ensures
            r == usage_of(maybe_ref(usage)),
    {
        match usage {
            None => TokenUsage { input: 0, output: 0, reasoning: 0, cache_write: 0, cache_read: 0 },
            Some(u) => TokenUsage {
                input: read_either(u, "prompt_tokens", "input_tokens"),
                output: read_either(u, "completion_tokens", "output_tokens"),
                reasoning: read_count(u, "reasoning_tokens"),
                cache_write: read_count(u, "cache_creation_input_tokens"),
                cache_read: read_count(u, "cache_read_input_tokens"),
            },
        }
    }
}

/// The count under `key`, or none.
fn read_count(usage: &Json, key: &str) -> (r: u64)
    ensures
        r == count_at(usage@, key@),
{
    match usage.get_u64(key) {
        Some(n) => n,
        None => 0,
    }
}

/// The count under `first`, or else under `second`, or else none.
fn read_either(usage: &Json, first: &str, second: &str) -> (r: u64)
    ensures
        r == count_at_either(usage@, first@, second@),
{
    match usage.get_u64(first) {
        Some(n) => n,
        None => read_count(usage, second),
    }
}

impl Default for TokenUsage {
    fn default() -> (r: TokenUsage)
        ensures
            r == usage_of(None),
    {
        TokenUsage { input: 0, output: 0, reasoning: 0, cache_write: 0, cache_read: 0 }
    }
}

impl std::ops::Add for TokenUsage {
    type Output = TokenUsage;

    fn add(self, other: TokenUsage) -> (r: TokenUsage) {
        TokenUsage {
            input: self.input + other.input,
            output: self.output + other.output,
            reasoning: self.reasoning + other.reasoning,
            cache_write: self.cache_write + other.cache_write,
            cache_read: self.cache_read + other.cache_read,
        }
    }
}

impl vstd::std_specs::ops::AddSpecImpl for TokenUsage {
    open spec fn obeys_add_spec() -> bool {
        true
    }

    open spec fn add_req(self, other: TokenUsage) -> bool {
        self.addable(other)
    }

    open spec fn add_spec(self, other: TokenUsage) -> TokenUsage {
        self.plus(other)
    }
}

// ---------------------------------------------------------------------------
// Laws
// ---------------------------------------------------------------------------

/// The total of added counts is the sum of the totals, in whatever order they are
/// added.
pub proof fn law_totals_add(a: TokenUsage, b: TokenUsage)
    requires
        a.addable(b),
    ensures
        a.plus(b).sum() == a.sum() + b.sum(),
        a.plus(b) == b.plus(a),
{
}

/// Counts without a report leave a sum as it is.
pub proof fn law_no_usage_adds_nothing(a: TokenUsage)
    ensures
        a.addable(usage_of(None)),
        a.plus(usage_of(None)) == a,
{
}

/// Each count is read under its own name; what went in and what came out have two names,
/// of which the first counts where both are given. What is not given counts as nothing.
pub proof fn law_each_count_is_read(u: JsonView, n: int)
    requires
        0 <= n <= u64::MAX,
    ensures
        u.get_u64("prompt_tokens"@) == Some(n) ==> usage_of(Some(u)).input == n,
        u.get_u64("prompt_tokens"@) is None && u.get_u64("input_tokens"@) == Some(n) ==> usage_of(Some(u)).input == n,
        u.get_u64("prompt_tokens"@) is None && u.get_u64("input_tokens"@) is None ==> usage_of(Some(u)).input == 0,
        u.get_u64("completion_tokens"@) == Some(n) ==> usage_of(Some(u)).output == n,
        u.get_u64("completion_tokens"@) is None && u.get_u64("output_tokens"@) == Some(n) ==> usage_of(Some(u)).output
            == n,
        u.get_u64("completion_tokens"@) is None && u.get_u64("output_tokens"@) is None ==> usage_of(Some(u)).output
            == 0,
        u.get_u64("reasoning_tokens"@) == Some(n) ==> usage_of(Some(u)).reasoning == n,
        u.get_u64("reasoning_tokens"@) is None ==> usage_of(Some(u)).reasoning == 0,
        u.get_u64("cache_creation_input_tokens"@) == Some(n) ==> usage_of(Some(u)).cache_write == n,
        u.get_u64("cache_creation_input_tokens"@) is None ==> usage_of(Some(u)).cache_write == 0,
        u.get_u64("cache_read_input_tokens"@) == Some(n) ==> usage_of(Some(u)).cache_read == n,
        u.get_u64("cache_read_input_tokens"@) is None ==> usage_of(Some(u)).cache_read == 0,
{
}

/// Counts are added kind by kind; reasoning is no part of the total of its own.
pub proof fn law_kinds_add(a: TokenUsage, b: TokenUsage)
    requires
        a.addable(b),
    ensures
        a.plus(b).input == a.input + b.input,
        a.plus(b).output == a.output + b.output,
        a.plus(b).reasoning == a.reasoning + b.reasoning,
        a.plus(b).cache_write == a.cache_write + b.cache_write,
        a.plus(b).cache_read == a.cache_read + b.cache_read,
        a.sum() == a.input + a.output + a.cache_write + a.cache_read,
{
}

} // verus!
