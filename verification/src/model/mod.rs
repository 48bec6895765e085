//! What an agent and a model exchange.
pub mod anthropic;
pub mod stream;

use vstd::prelude::*;

use crate::json::{list_view, maybe, Json, JsonView};

verus! {

/// A tool call that a model asks for.
pub struct ToolCall {
    pub id: String,
    pub name: String,
    pub arguments: Json,
    /// The text of the arguments, where it is no JSON.
    pub raw_arguments: Option<String>,
    /// Why it is no JSON.
    pub raw_arguments_error: Option<String>,
}

/// What a model replies.
pub struct ChatResponse {
    pub text: String,
    pub tool_calls: Vec<ToolCall>,
    /// The token counts, as the provider reports them.
    pub usage: Option<Json>,
    pub reasoning: String,
    /// The model's thoughts, to be handed back as they are.
    pub reasoning_blocks: Vec<Json>,
}

/// What a tool call says.
pub struct CallView {
    pub id: Seq<char>,
    pub name: Seq<char>,
    pub arguments: JsonView,
    pub raw_arguments: Option<Seq<char>>,
    pub raw_arguments_error: Option<Seq<char>>,
}

/// What a reply says.
pub struct ResponseView {
    pub text: Seq<char>,
    pub tool_calls: Seq<CallView>,
    pub usage: Option<JsonView>,
    pub reasoning: Seq<char>,
    pub reasoning_blocks: Seq<JsonView>,
}

/// A text, where there is one.
pub open spec fn maybe_text(s: Option<String>) -> Option<Seq<char>> {
    match s {
        Some(s) => Some(s@),
        None => None,
    }
}

/// What a list of calls says.
pub open spec fn calls_view(v: Seq<ToolCall>) -> Seq<CallView> {
    v.map_values(|c: ToolCall| c@)
}

impl ToolCall {
    /// What the call says.
    pub open spec fn view(&self) -> CallView {
        CallView {
            id: self.id@,
            name: self.name@,
            arguments: self.arguments@,
            raw_arguments: maybe_text(self.raw_arguments),
            raw_arguments_error: maybe_text(self.raw_arguments_error),
        }
    }
}

impl ChatResponse {
    /// What the reply says.
    pub open spec fn view(&self) -> ResponseView {
        ResponseView {
            text: self.text@,
            tool_calls: calls_view(self.tool_calls@),
            usage: maybe(self.usage),
            reasoning: self.reasoning@,
            reasoning_blocks: list_view(self.reasoning_blocks@),
        }
    }
}

/// Adding a call to a list adds what it says.
pub broadcast proof fn lemma_calls_push(v: Seq<ToolCall>, c: ToolCall)
    ensures
        #[trigger] calls_view(v.push(c)) == calls_view(v).push(c@),
{
    assert(calls_view(v.push(c)) =~= calls_view(v).push(c@));
}

impl CallView {
    /// The call once it has been dealt with: without the text of its arguments.
    pub open spec fn settled(self) -> CallView {
        CallView { raw_arguments: None, raw_arguments_error: None, ..self }
    }
}

impl ToolCall {
    /// The call once it has been dealt with: without the text of its arguments.
    pub fn settled(&self) -> (r: ToolCall)
        ensures
            r@ == self@.settled(),
    {
        ToolCall {
            id: self.id.clone(),
            name: self.name.clone(),
            arguments: self.arguments.copy(),
            raw_arguments: None,
            raw_arguments_error: None,
        }
    }
}

/// A call that has been dealt with keeps its id, its name and its arguments.
pub proof fn law_settled_call_is_the_call(c: CallView)
    ensures
        c.settled().id == c.id,
        c.settled().name == c.name,
        c.settled().arguments == c.arguments,
        c.settled().raw_arguments is None && c.settled().raw_arguments_error is None,
{
}

} // verus!
