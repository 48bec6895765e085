//! Requests to the Messages API of Anthropic, and its replies.
use vstd::prelude::*;

use crate::json::{array, copy_list, copy_or_null, group_json_views, list_view, maybe, maybe_ref, number_value, object, object2, object3, object4, or_null, text_value, whole, entries_view, Json, JsonView};
use crate::numbers::{parse_unsigned, unsigned64_of};
use crate::ordered::{law_put_then_lookup, lookup};
use crate::std_text::{lowercase, lowercased};
use crate::text::{join, join_of, lemma_texts_push, same, strip_trailing, strip_trailing_of, texts, trim, trim_of};
use super::{calls_view, lemma_calls_push, maybe_text, CallView, ChatResponse, ResponseView, ToolCall};

verus! {

/// The version of the API.
pub const ANTHROPIC_VERSION: &'static str = "2023-06-01";

/// The feature that lets a cached prompt live for an hour.
pub const CACHE_BETA_HEADER: &'static str = "extended-cache-ttl-2025-04-11";

/// How often a failed request is sent again at most.
pub const MAX_RETRIES: u32 = 2;

/// How the model is reached and asked.
pub struct AnthropicModel {
    pub api_key: String,
    pub base_url: String,
    pub model: String,
    pub max_tokens: u64,
    pub streaming: bool,
    pub prompt_caching: bool,
    pub thinking: Option<Json>,
}

/// The settings that the environment gives.
pub struct ModelSettings {
    pub api_key: Option<String>,
    pub base_url: Option<String>,
    pub max_tokens: Option<String>,
    pub streaming: Option<String>,
    pub prompt_cache: Option<String>,
    pub reasoning: Option<String>,
}

/// Why a request failed.
#[derive(Clone, Copy, PartialEq, Eq, Structural)]
pub enum Failure {
    /// The server replied with this status.
    Status(u16),
    /// Reading or writing failed.
    Io,
    /// It took too long.
    Timeout,
    /// No connection was made.
    ConnectionFailed,
    /// The server has no known address.
    HostNotFound,
    /// Anything else.
    Other,
}

// ---------------------------------------------------------------------------
// Settings
// ---------------------------------------------------------------------------

/// A setting that is on or off.
pub open spec fn flag(value: Option<Seq<char>>, default: bool) -> bool {
    match value {
        Some(v) => lowercased(v) == "1"@ || lowercased(v) == "true"@ || lowercased(v) == "yes"@,
        None => default,
    }
}

/// A text, or another where there is none.
pub open spec fn text_or(value: Option<Seq<char>>, default: Seq<char>) -> Seq<char> {
    match value {
        Some(v) => v,
        None => default,
    }
}

/// How many tokens a reply may have.
pub open spec fn max_tokens_of(value: Option<Seq<char>>) -> int {
    match value {
        Some(v) => match unsigned64_of(v) {
            Some(n) => n,
            None => 32768,
        },
        None => 32768,
    }
}

/// How the model is asked to think.
pub open spec fn adaptive_thinking() -> JsonView {
    JsonView::Object(seq![("display"@, JsonView::Str("summarized"@)), ("type"@, JsonView::Str("adaptive"@))])
}

/// A setting that is on or off.
pub fn env_flag(value: &Option<String>, default: bool) -> (r: bool)
    ensures
        r == flag(maybe_text(*value), default),
{
    match value {
        Some(v) => {
            let low = lowercase(v.as_str());
            same(low.as_str(), "1") || same(low.as_str(), "true") || same(low.as_str(), "yes")
        },
        None => default,
    }
}

impl AnthropicModel {
    /// The model under the settings of the environment. It cannot be reached without
    /// a key.
    pub fn new(model: String, reasoning: bool, settings: &ModelSettings) -> (r: Result<AnthropicModel, String>)
        ensures
            match settings.api_key {
                None => r matches Err(e) && e@ == "ANTHROPIC_API_KEY environment variable is not set"@,
                Some(key) => {
                    &&& r is Ok
                    &&& r->Ok_0.api_key@ == key@
                    &&& r->Ok_0.base_url@ == text_or(maybe_text(settings.base_url), "https://api.anthropic.com"@)
                    &&& r->Ok_0.model@ == model@
                    &&& r->Ok_0.max_tokens == max_tokens_of(maybe_text(settings.max_tokens))
                    &&& r->Ok_0.streaming == flag(maybe_text(settings.streaming), true)
                    &&& r->Ok_0.prompt_caching == flag(maybe_text(settings.prompt_cache), true)
                    &&& maybe(r->Ok_0.thinking) == (if reasoning || flag(maybe_text(settings.reasoning), false) {
                        Some(adaptive_thinking())
                    } else {
                        None
                    })
                },
            },
    {
        let api_key = match &settings.api_key {
            Some(k) => k.clone(),
            None => {
                return Err(String::from_str("ANTHROPIC_API_KEY environment variable is not set"));
            },
        };
        let base_url = match &settings.base_url {
            Some(u) => u.clone(),
            None => String::from_str("https://api.anthropic.com"),
        };
        let max_tokens: u64 = match &settings.max_tokens {
            Some(v) => match parse_unsigned(v.as_str()) {
                Some(n) => n,
                None => 32768,
            },
            None => 32768,
        };
        let thinking = if reasoning || env_flag(&settings.reasoning, false) {
            Some(object2("display", text_value("summarized"), "type", text_value("adaptive")))
        } else {
            None
        };
        Ok(
            AnthropicModel {
                api_key,
                base_url,
                model,
                max_tokens,
                streaming: env_flag(&settings.streaming, true),
                prompt_caching: env_flag(&settings.prompt_cache, true),
                thinking,
            },
        )
    }

    /// Where requests are sent.
    pub fn messages_url(&self) -> (r: String)
        ensures
            r@ == strip_trailing_of(self.base_url@, "/"@) + "/v1/messages"@,
    {
        let mut out = String::from_str(strip_trailing(self.base_url.as_str(), "/"));
        out.append("/v1/messages");
        out
    }
}

// ---------------------------------------------------------------------------
// The request
// ---------------------------------------------------------------------------

/// The message has the role `role`.
pub open spec fn has_role(m: JsonView, role: Seq<char>) -> bool {
    m.get_str("role"@) == Some(role)
}

/// The texts of the system messages.
pub open spec fn system_parts(messages: Seq<JsonView>) -> Seq<Seq<char>>
    decreases messages.len(),
{
    if messages.len() == 0 {
        Seq::empty()
    } else {
        let before = system_parts(messages.drop_last());
        let m = messages.last();
        match m.get_str("content"@) {
            Some(c) if has_role(m, "system"@) => before.push(c),
            _ => before,
        }
    }
}

/// The messages that are no system messages.
pub open spec fn conversation(messages: Seq<JsonView>) -> Seq<JsonView>
    decreases messages.len(),
{
    if messages.len() == 0 {
        Seq::empty()
    } else if has_role(messages.last(), "system"@) {
        conversation(messages.drop_last())
    } else {
        conversation(messages.drop_last()).push(messages.last())
    }
}

/// The position of the `n`th user message, counted from the end.
pub open spec fn user_from_end(messages: Seq<JsonView>, n: int) -> Option<int>
    decreases messages.len(),
{
    if messages.len() == 0 {
        None
    } else if !has_role(messages.last(), "user"@) {
        user_from_end(messages.drop_last(), n)
    } else if n <= 1 {
        Some(messages.len() - 1)
    } else {
        user_from_end(messages.drop_last(), n - 1)
    }
}

/// The mark of what the server may keep.
pub open spec fn cache_mark() -> JsonView {
    JsonView::Object(seq![("ttl"@, JsonView::Str("1h"@)), ("type"@, JsonView::Str("ephemeral"@))])
}

/// A block of text.
pub open spec fn text_block(s: Seq<char>) -> JsonView {
    JsonView::Object(seq![("text"@, JsonView::Str(s)), ("type"@, JsonView::Str("text"@))])
}

/// A block of text that the server may keep.
pub open spec fn kept_text_block(s: Seq<char>) -> JsonView {
    JsonView::Object(
        seq![("cache_control"@, cache_mark()), ("text"@, JsonView::Str(s)), ("type"@, JsonView::Str("text"@))],
    )
}

/// Blocks, the last of which the server may keep, with all before it.
pub open spec fn last_kept(blocks: Seq<JsonView>) -> Seq<JsonView> {
    if blocks.len() > 0 && blocks.last() is Object && blocks.last().get("cache_control"@) is None {
        blocks.drop_last().push(blocks.last().with("cache_control"@, cache_mark()))
    } else {
        blocks
    }
}

/// A message that the server may keep, with all before it.
pub open spec fn kept_message(m: JsonView) -> JsonView {
    match m.get("content"@) {
        Some(JsonView::Str(s)) => m.with("content"@, JsonView::Array(seq![kept_text_block(s)])),
        Some(JsonView::Array(blocks)) => m.with("content"@, JsonView::Array(last_kept(blocks))),
        _ => m,
    }
}

/// The conversation with the mark on its last user message but one.
pub open spec fn kept_conversation(messages: Seq<JsonView>) -> Seq<JsonView> {
    match user_from_end(messages, 2) {
        Some(i) => if 0 <= i < messages.len() {
            messages.update(i, kept_message(messages[i]))
        } else {
            messages
        },
        None => messages,
    }
}

/// The system prompt, as it is sent.
pub open spec fn system_value(parts: Seq<Seq<char>>, caching: bool) -> JsonView {
    if caching {
        JsonView::Array(
            Seq::new(
                parts.len(),
                |i: int|
                    if i == 0 {
                        kept_text_block(parts[i])
                    } else {
                        text_block(parts[i])
                    },
            ),
        )
    } else {
        JsonView::Str(join_of(parts, "\n\n"@))
    }
}

/// The value, or another where there is none.
pub open spec fn value_or(v: Option<JsonView>, default: JsonView) -> JsonView {
    match v {
        Some(v) => v,
        None => default,
    }
}

/// A tool as it is offered.
pub open spec fn offered_tool(t: JsonView) -> JsonView {
    let f = or_null(t.get("function"@));
    JsonView::Object(
        seq![
            ("description"@, value_or(f.get("description"@), JsonView::Str(""@))),
            ("input_schema"@, value_or(f.get("parameters"@), JsonView::Object(seq![]))),
            ("name"@, or_null(f.get("name"@))),
        ],
    )
}

/// The tools as they are offered; the server may keep them all.
pub open spec fn offered_tools(tools: Seq<JsonView>, caching: bool) -> Seq<JsonView> {
    Seq::new(
        tools.len(),
        |i: int|
            if caching && i == tools.len() - 1 {
                offered_tool(tools[i]).with("cache_control"@, cache_mark())
            } else {
                offered_tool(tools[i])
            },
    )
}

/// What every request holds.
pub open spec fn plain_body(model: Seq<char>, max_tokens: int, messages: Seq<JsonView>) -> JsonView {
    JsonView::Object(
        seq![
            ("max_tokens"@, whole(max_tokens)),
            ("messages"@, JsonView::Array(messages)),
            ("model"@, JsonView::Str(model)),
        ],
    )
}

/// The body of a request.
pub open spec fn body_of(
    model: Seq<char>,
    max_tokens: int,
    caching: bool,
    thinking: Option<JsonView>,
    messages: Seq<JsonView>,
    tools: Option<Seq<JsonView>>,
) -> JsonView {
    let talk = conversation(messages);
    let parts = system_parts(messages);
    let b0 = plain_body(model, max_tokens, if caching { kept_conversation(talk) } else { talk });
    let b1 = if parts.len() > 0 { b0.with("system"@, system_value(parts, caching)) } else { b0 };
    let b2 = match tools {
        Some(t) if t.len() > 0 => b1.with("tools"@, JsonView::Array(offered_tools(t, caching))),
        _ => b1,
    };
    match thinking {
        Some(t) => b2.with("thinking"@, t),
        None => b2,
    }
}

/// The mark of what the server may keep.
fn cache_control_ephemeral() -> (r: Json)
    ensures
        r@ == cache_mark(),
{
    object2("ttl", text_value("1h"), "type", text_value("ephemeral"))
}

/// The message has the role `role`.
pub fn is_role(m: &Json, role: &str) -> (r: bool)
    ensures
        r == has_role(m@, role@),
{
    match m.get_str("role") {
        Some(s) => same(s, role),
        None => false,
    }
}

/// Blocks, the last of which the server may keep.
fn keep_last(blocks: &Vec<Json>) -> (r: Vec<Json>)
    ensures
        list_view(r@) == last_kept(list_view(blocks@)),
{
    let ghost b = list_view(blocks@);
    let mut out = copy_list(blocks);
    assert(list_view(out@).len() == out@.len());
    if out.len() > 0 {
        let i = out.len() - 1;
        assert(b.last() == out@[i as int]@) by {
            assert(list_view(out@)[i as int] == out@[i as int]@);
        }
        if out[i].is_object() && out[i].get("cache_control").is_none() {
            let new = out[i].copy().with("cache_control", cache_control_ephemeral());
            out.set(i, new);
            assert(list_view(out@) =~= last_kept(b));
        }
    }
    out
}

/// A message that the server may keep.
pub fn add_cache_control_to_message(msg: &Json) -> (r: Json)
    ensures
        r@ == kept_message(msg@),
{
    broadcast use group_json_views;

    match msg.get("content") {
        Some(Json::Str(s)) => {
            let block = object3(
                "cache_control",
                cache_control_ephemeral(),
                "text",
                text_value(s.as_str()),
                "type",
                text_value("text"),
            );
            let blocks = vec![block];
            assert(list_view(blocks@) =~= seq![kept_text_block(s@)]);
            msg.copy().with("content", array(blocks))
        },
        Some(Json::Array(blocks)) => msg.copy().with("content", array(keep_last(blocks))),
        _ => msg.copy(),
    }
}

/// The position of the last user message but one.
fn find_kept(messages: &Vec<Json>) -> (r: Option<usize>)
    ensures
        match r {
            Some(i) => user_from_end(list_view(messages@), 2) == Some(i as int) && i < messages@.len(),
            None => user_from_end(list_view(messages@), 2) is None,
        },
{
    let ghost all = list_view(messages@);
    let mut i: usize = messages.len();
    let mut wanted: u8 = 2;
    assert(all.take(i as int) =~= all);
    while i > 0
        invariant
            i <= messages@.len(),
            1 <= wanted <= 2,
            all == list_view(messages@),
            user_from_end(all, 2) == user_from_end(all.take(i as int), wanted as int),
        decreases i,
    {
        proof {
            assert(all.take(i as int).drop_last() =~= all.take(i - 1));
            assert(all.take(i as int).last() == messages@[i - 1]@);
        }
        i = i - 1;
        if is_role(&messages[i], "user") {
            if wanted == 1 {
                return Some(i);
            }
            wanted = wanted - 1;
        }
    }
    assert(all.take(0) =~= Seq::empty());
    None
}

/// The texts of the system messages.
fn collect_system(messages: &Vec<Json>) -> (r: Vec<String>)
    ensures
        texts(r@) == system_parts(list_view(messages@)),
{
    let ghost all = list_view(messages@);
    let mut out: Vec<String> = Vec::new();
    assert(texts(out@) =~= system_parts(all.take(0)));
    for i in 0..messages.len()
        invariant
            all == list_view(messages@),
            texts(out@) == system_parts(all.take(i as int)),
    {
        proof {
            assert(all.take(i + 1).drop_last() =~= all.take(i as int));
            assert(all.take(i + 1).last() == messages@[i as int]@);
        }
        if is_role(&messages[i], "system") {
            if let Some(c) = messages[i].get_str("content") {
                let new = String::from_str(c);
                proof { lemma_texts_push(out@, new); }
                out.push(new);
            }
        }
    }
    assert(all.take(messages@.len() as int) =~= all);
    out
}

/// The messages that are no system messages.
fn collect_conversation(messages: &Vec<Json>) -> (r: Vec<Json>)
    ensures
        list_view(r@) == conversation(list_view(messages@)),
{
    broadcast use group_json_views;

    let ghost all = list_view(messages@);
    let mut out: Vec<Json> = Vec::new();
    assert(list_view(out@) =~= conversation(all.take(0)));
    for i in 0..messages.len()
        invariant
            all == list_view(messages@),
            list_view(out@) == conversation(all.take(i as int)),
    {
        proof {
            assert(all.take(i + 1).drop_last() =~= all.take(i as int));
            assert(all.take(i + 1).last() == messages@[i as int]@);
        }
        if !is_role(&messages[i], "system") {
            out.push(messages[i].copy());
        }
    }
    assert(all.take(messages@.len() as int) =~= all);
    out
}

/// The system prompt, as it is sent.
fn build_system(parts: &Vec<String>, caching: bool) -> (r: Json)
    ensures
        r@ == system_value(texts(parts@), caching),
{
    if !caching {
        return Json::Str(join(parts, "\n\n"));
    }
    let ghost all = texts(parts@);
    let mut blocks: Vec<Json> = Vec::new();
    for i in 0..parts.len()
        invariant
            all == texts(parts@),
            blocks@.len() == i,
            forall|k: int|
                0 <= k < i ==> (#[trigger] blocks@[k])@ == (if k == 0 {
                    kept_text_block(all[k])
                } else {
                    text_block(all[k])
                }),
    {
        assert(all[i as int] == parts@[i as int]@);
        let part = parts[i].as_str();
        if i == 0 {
            blocks.push(
                object3(
                    "cache_control",
                    cache_control_ephemeral(),
                    "text",
                    text_value(part),
                    "type",
                    text_value("text"),
                ),
            );
        } else {
            blocks.push(object2("text", text_value(part), "type", text_value("text")));
        }
    }
    assert(list_view(blocks@) =~= system_value(all, true)->Array_0);
    array(blocks)
}

/// The value, or another where there is none.
fn copy_or(v: Option<&Json>, default: Json) -> (r: Json)
    ensures
        r@ == value_or(maybe_ref(v), default@),
{
    match v {
        Some(v) => v.copy(),
        None => default,
    }
}

/// A tool as it is offered.
fn offer_tool(t: &Json) -> (r: Json)
    ensures
        r@ == offered_tool(t@),
{
    let f = copy_or_null(t.get("function"));
    let no_entries: Vec<(String, Json)> = Vec::new();
    assert(entries_view(no_entries@) =~= seq![]);
    object3(
        "description",
        copy_or(f.get("description"), text_value("")),
        "input_schema",
        copy_or(f.get("parameters"), object(no_entries)),
        "name",
        copy_or_null(f.get("name")),
    )
}

/// The tools as they are offered.
fn offer_tools(tools: &Vec<Json>, caching: bool) -> (r: Vec<Json>)
    ensures
        list_view(r@) == offered_tools(list_view(tools@), caching),
{
    let ghost all = list_view(tools@);
    let mut out: Vec<Json> = Vec::new();
    let n = tools.len();
    for i in 0..n
        invariant
            n == tools@.len(),
            all == list_view(tools@),
            out@.len() == i,
            forall|k: int| 0 <= k < i ==> (#[trigger] out@[k])@ == offered_tools(all, caching)[k],
    {
        assert(all[i as int] == tools@[i as int]@);
        let tool = offer_tool(&tools[i]);
        if caching && i == n - 1 {
            out.push(tool.with("cache_control", cache_control_ephemeral()));
        } else {
            out.push(tool);
        }
    }
    assert(list_view(out@) =~= offered_tools(all, caching));
    out
}

impl AnthropicModel {
    /// The body of a request with the given messages and tools.
    pub fn request_body(&self, messages: &Vec<Json>, tools: Option<&Vec<Json>>) -> (r: Json)
        ensures
            r@ == body_of(
                self.model@,
                self.max_tokens as int,
                self.prompt_caching,
                maybe(self.thinking),
                list_view(messages@),
                (match tools {
                    Some(t) => Some(list_view(t@)),
                    None => None,
                }),
            ),
    {
        broadcast use group_json_views;

        let parts = collect_system(messages);
        let mut talk = collect_conversation(messages);
        let ghost plain = list_view(talk@);
        if self.prompt_caching {
            if let Some(i) = find_kept(&talk) {
                let kept = add_cache_control_to_message(&talk[i]);
                assert(plain[i as int] == talk@[i as int]@);
                talk.set(i, kept);
                assert(list_view(talk@) =~= plain.update(i as int, kept_message(plain[i as int])));
            }
        }
        let mut body = object3(
            "max_tokens",
            number_value(self.max_tokens),
            "messages",
            array(talk),
            "model",
            text_value(self.model.as_str()),
        );
        assert(texts(parts@).len() == parts@.len());
        if parts.len() > 0 {
            body = body.with("system", build_system(&parts, self.prompt_caching));
        }
        if let Some(tools) = tools {
            assert(list_view(tools@).len() == tools@.len());
            if tools.len() > 0 {
                body = body.with("tools", array(offer_tools(tools, self.prompt_caching)));
            }
        }
        match &self.thinking {
            Some(t) => body.with("thinking", t.copy()),
            None => body,
        }
    }
}

/// The body of a request whose reply is to come in pieces.
pub fn streaming_body(body: &Json) -> (r: Json)
    ensures
        r@ == body@.with("stream"@, JsonView::Bool(true)),
{
    body.copy().with("stream", Json::Bool(true))
}

// ---------------------------------------------------------------------------
// The reply in one piece
// ---------------------------------------------------------------------------

/// What is gathered from the blocks of a reply.
pub struct GatheredView {
    pub texts: Seq<Seq<char>>,
    pub calls: Seq<CallView>,
    pub thoughts: Seq<Seq<char>>,
    pub blocks: Seq<JsonView>,
}

/// Nothing gathered.
pub open spec fn nothing_gathered() -> GatheredView {
    GatheredView { texts: Seq::empty(), calls: Seq::empty(), thoughts: Seq::empty(), blocks: Seq::empty() }
}

/// A block of thoughts, with the signature where there is one.
pub open spec fn thinking_block(thought: Seq<char>, signature: Option<Seq<char>>) -> JsonView {
    let plain = JsonView::Object(
        seq![("thinking"@, JsonView::Str(thought)), ("type"@, JsonView::Str("thinking"@))],
    );
    match signature {
        Some(s) => plain.with("signature"@, JsonView::Str(s)),
        None => plain,
    }
}

impl GatheredView {
    /// With a text.
    pub open spec fn with_text(self, s: Seq<char>) -> GatheredView {
        GatheredView { texts: self.texts.push(s), ..self }
    }

    /// With a call.
    pub open spec fn with_call(self, c: CallView) -> GatheredView {
        GatheredView { calls: self.calls.push(c), ..self }
    }

    /// With a thought.
    pub open spec fn with_thought(self, thought: Seq<char>, signature: Option<Seq<char>>) -> GatheredView {
        GatheredView {
            thoughts: self.thoughts.push(thought),
            blocks: self.blocks.push(thinking_block(thought, signature)),
            ..self
        }
    }

    /// The reply of which this was gathered.
    pub open spec fn response(self, usage: Option<JsonView>) -> ResponseView {
        ResponseView {
            text: trim_of(join_of(self.texts, "\n"@)),
            tool_calls: self.calls,
            usage,
            reasoning: trim_of(join_of(self.thoughts, "\n\n"@)),
            reasoning_blocks: self.blocks,
        }
    }
}

/// What a block of a reply adds.
pub open spec fn gather_block(g: GatheredView, block: JsonView) -> GatheredView {
    let kind = block.text_at("type"@);
    if kind == "text"@ {
        match block.get_str("text"@) {
            Some(t) => g.with_text(t),
            None => g,
        }
    } else if kind == "tool_use"@ {
        g.with_call(
            CallView {
                id: block.text_at("id"@),
                name: block.text_at("name"@),
                arguments: value_or(block.get("input"@), JsonView::Object(seq![])),
                raw_arguments: None,
                raw_arguments_error: None,
            },
        )
    } else if kind == "thinking"@ {
        g.with_thought(block.text_at("thinking"@), block.get_str("signature"@))
    } else {
        g
    }
}

/// What the blocks of a reply say.
pub open spec fn gather(blocks: Seq<JsonView>) -> GatheredView
    decreases blocks.len(),
{
    if blocks.len() == 0 {
        nothing_gathered()
    } else {
        gather_block(gather(blocks.drop_last()), blocks.last())
    }
}

/// What a reply in one piece says.
pub open spec fn reply_of(value: JsonView) -> ResponseView {
    gather(match value.get_array("content"@) {
        Some(blocks) => blocks,
        None => Seq::empty(),
    }).response(value.get("usage"@))
}

/// What is gathered from the blocks of a reply.
pub(crate) struct Gathered {
    pub texts: Vec<String>,
    pub calls: Vec<ToolCall>,
    pub thoughts: Vec<String>,
    pub blocks: Vec<Json>,
}

impl Gathered {
    /// What was gathered.
    pub(crate) open spec fn view(&self) -> GatheredView {
        GatheredView {
            texts: texts(self.texts@),
            calls: calls_view(self.calls@),
            thoughts: texts(self.thoughts@),
            blocks: list_view(self.blocks@),
        }
    }

    pub(crate) fn new() -> (r: Gathered)
        ensures
            r@ == nothing_gathered(),
    {
        let r = Gathered { texts: Vec::new(), calls: Vec::new(), thoughts: Vec::new(), blocks: Vec::new() };
        assert(r@.texts =~= Seq::empty());
        assert(r@.calls =~= Seq::empty());
        assert(r@.thoughts =~= Seq::empty());
        assert(r@.blocks =~= Seq::empty());
        r
    }

    pub(crate) fn add_text(&mut self, s: String)
        ensures
            final(self)@ == old(self)@.with_text(s@),
    {
        proof { lemma_texts_push(self.texts@, s); }
        self.texts.push(s);
    }

    pub(crate) fn add_call(&mut self, c: ToolCall)
        ensures
            final(self)@ == old(self)@.with_call(c@),
    {
        proof { lemma_calls_push(self.calls@, c); }
        self.calls.push(c);
    }

    pub(crate) fn add_thought(&mut self, thought: String, signature: Option<String>)
        ensures
            final(self)@ == old(self)@.with_thought(thought@, maybe_text(signature)),
    {
        broadcast use group_json_views;

        let plain = object2("thinking", text_value(thought.as_str()), "type", text_value("thinking"));
        let block = match signature {
            Some(s) => plain.with("signature", Json::Str(s)),
            None => plain,
        };
        proof { lemma_texts_push(self.thoughts@, thought); }
        self.thoughts.push(thought);
        self.blocks.push(block);
    }

    pub(crate) fn into_response(self, usage: Option<Json>) -> (r: ChatResponse)
        ensures
            r@ == self@.response(maybe(usage)),
    {
        let text = join(&self.texts, "\n");
        let reasoning = join(&self.thoughts, "\n\n");
        ChatResponse {
            text: String::from_str(trim(text.as_str())),
            tool_calls: self.calls,
            usage,
            reasoning: String::from_str(trim(reasoning.as_str())),
            reasoning_blocks: self.blocks,
        }
    }
}

/// A text as one of its own, where there is one.
pub(crate) fn own_text(s: Option<&str>) -> (r: Option<String>)
    ensures
        match s {
            Some(t) => maybe_text(r) == Some(t@),
            None => r is None,
        },
{
    match s {
        Some(t) => Some(String::from_str(t)),
        None => None,
    }
}

/// An empty object.
pub(crate) fn empty_object() -> (r: Json)
    ensures
        r@ == JsonView::Object(seq![]),
{
    let no_entries: Vec<(String, Json)> = Vec::new();
    assert(entries_view(no_entries@) =~= seq![]);
    object(no_entries)
}

/// What a block of a reply adds.
fn take_block(g: &mut Gathered, block: &Json)
    ensures
        final(g)@ == gather_block(old(g)@, block@),
{
    let kind = block.text_at("type");
    if same(kind.as_str(), "text") {
        if let Some(t) = block.get_str("text") {
            g.add_text(String::from_str(t));
        }
    } else if same(kind.as_str(), "tool_use") {
        g.add_call(
            ToolCall {
                id: block.text_at("id"),
                name: block.text_at("name"),
                arguments: copy_or(block.get("input"), empty_object()),
                raw_arguments: None,
                raw_arguments_error: None,
            },
        );
    } else if same(kind.as_str(), "thinking") {
        g.add_thought(block.text_at("thinking"), own_text(block.get_str("signature")));
    }
}

/// What a reply in one piece says.
pub fn finalize_non_streaming(value: &Json) -> (r: ChatResponse)
    ensures
        r@ == reply_of(value@),
{
    let mut g = Gathered::new();
    if let Some(content) = value.get_array("content") {
        let ghost all = list_view(content@);
        assert(all.take(0) =~= Seq::empty());
        for i in 0..content.len()
            invariant
                all == list_view(content@),
                g@ == gather(all.take(i as int)),
        {
            proof {
                assert(all.take(i + 1).drop_last() =~= all.take(i as int));
                assert(all.take(i + 1).last() == content@[i as int]@);
            }
            take_block(&mut g, &content[i]);
        }
        assert(all.take(content@.len() as int) =~= all);
    }
    let usage = match value.get("usage") {
        Some(u) => Some(u.copy()),
        None => None,
    };
    g.into_response(usage)
}

// ---------------------------------------------------------------------------
// Sending again
// ---------------------------------------------------------------------------

/// The failure may be gone when the request is sent again.
pub open spec fn passing(failure: Failure) -> bool {
    match failure {
        Failure::Status(code) => code == 429 || 500 <= code <= 599,
        Failure::Io => true,
        Failure::Timeout => true,
        Failure::ConnectionFailed => true,
        Failure::HostNotFound => true,
        Failure::Other => false,
    }
}

/// Whether the failure may be gone when the request is sent again.
pub fn should_retry(failure: Failure) -> (r: bool)
    ensures
        r == passing(failure),
{
    match failure {
        Failure::Status(code) => code == 429 || (500 <= code && code <= 599),
        Failure::Io => true,
        Failure::Timeout => true,
        Failure::ConnectionFailed => true,
        Failure::HostNotFound => true,
        Failure::Other => false,
    }
}

/// How many milliseconds to wait before a request that failed is sent again, where
/// it is: twice as long each time. `attempt` says how often it has been sent again.
pub fn retry_delay(attempt: u32, failure: Failure) -> (r: Option<u64>)
    ensures
        match r {
            Some(ms) => attempt < MAX_RETRIES && passing(failure) && ms == 500 * vstd::arithmetic::power2::pow2(
                attempt as nat,
            ),
            None => attempt >= MAX_RETRIES || !passing(failure),
        },
{
    if attempt < MAX_RETRIES && should_retry(failure) {
        proof { vstd::arithmetic::power2::lemma2_to64(); }
        Some(if attempt == 0 {
            500
        } else {
            1000
        })
    } else {
        None
    }
}

// ---------------------------------------------------------------------------
// Tool results
// ---------------------------------------------------------------------------

/// A tool call, as it is handed back.
pub open spec fn tool_use_block(c: CallView) -> JsonView {
    JsonView::Object(
        seq![
            ("id"@, JsonView::Str(c.id)),
            ("input"@, c.arguments),
            ("name"@, JsonView::Str(c.name)),
            ("type"@, JsonView::Str("tool_use"@)),
        ],
    )
}

/// The output of a tool call, as it is handed back.
pub open spec fn tool_result_block(c: CallView, output: Seq<char>) -> JsonView {
    JsonView::Object(
        seq![
            ("content"@, JsonView::Str(output)),
            ("tool_use_id"@, JsonView::Str(c.id)),
            ("type"@, JsonView::Str("tool_result"@)),
        ],
    )
}

/// A message.
pub open spec fn message(role: Seq<char>, content: JsonView) -> JsonView {
    JsonView::Object(seq![("content"@, content), ("role"@, JsonView::Str(role))])
}

/// The blocks in which outputs are handed back; each call has its output.
pub open spec fn result_blocks(calls: Seq<CallView>, outputs: Seq<Seq<char>>) -> Seq<JsonView> {
    Seq::new(
        if calls.len() < outputs.len() {
            calls.len()
        } else {
            outputs.len()
        },
        |i: int| tool_result_block(calls[i], outputs[i]),
    )
}

/// The messages in which calls and their outputs are handed back: the thoughts and
/// the calls, then the outputs.
pub open spec fn result_messages(calls: Seq<CallView>, outputs: Seq<Seq<char>>, thoughts: Seq<JsonView>) -> Seq<
    JsonView,
> {
    seq![
        message("assistant"@, JsonView::Array(thoughts + calls.map_values(|c: CallView| tool_use_block(c)))),
        message("user"@, JsonView::Array(result_blocks(calls, outputs))),
    ]
}

/// A message.
pub fn message_value(role: &str, content: Json) -> (r: Json)
    ensures
        r@ == message(role@, content@),
{
    object2("content", content, "role", text_value(role))
}

/// The messages in which calls and their outputs are handed back.
pub fn format_tool_result_messages(
    calls: &Vec<ToolCall>,
    outputs: &Vec<String>,
    reasoning_blocks: &Vec<Json>,
) -> (r: Vec<Json>)
    ensures
        list_view(r@) == result_messages(calls_view(calls@), texts(outputs@), list_view(reasoning_blocks@)),
{
    broadcast use group_json_views;

    let ghost c = calls_view(calls@);
    let ghost t = list_view(reasoning_blocks@);
    let ghost uses = c.map_values(|c: CallView| tool_use_block(c));
    let mut said = copy_list(reasoning_blocks);
    assert(t + uses.take(0) =~= t);
    for i in 0..calls.len()
        invariant
            c == calls_view(calls@),
            uses == c.map_values(|c: CallView| tool_use_block(c)),
            list_view(said@) == t + uses.take(i as int),
    {
        let call = &calls[i];
        assert(c[i as int] == call@);
        said.push(
            object4(
                "id",
                text_value(call.id.as_str()),
                "input",
                call.arguments.copy(),
                "name",
                text_value(call.name.as_str()),
                "type",
                text_value("tool_use"),
            ),
        );
        assert(t + uses.take(i + 1) =~= (t + uses.take(i as int)).push(uses[i as int]));
    }
    assert(uses.take(calls@.len() as int) =~= uses);
    let n = if calls.len() < outputs.len() { calls.len() } else { outputs.len() };
    let mut results: Vec<Json> = Vec::new();
    for i in 0..n
        invariant
            n <= calls@.len(),
            n <= outputs@.len(),
            c == calls_view(calls@),
            results@.len() == i,
            forall|k: int|
                0 <= k < i ==> (#[trigger] results@[k])@ == tool_result_block(c[k], texts(outputs@)[k]),
    {
        assert(c[i as int] == calls@[i as int]@);
        results.push(
            object3(
                "content",
                text_value(outputs[i].as_str()),
                "tool_use_id",
                text_value(calls[i].id.as_str()),
                "type",
                text_value("tool_result"),
            ),
        );
    }
    assert(list_view(results@) =~= result_blocks(c, texts(outputs@)));
    let r = vec![message_value("assistant", array(said)), message_value("user", array(results))];
    assert(list_view(r@) =~= result_messages(c, texts(outputs@), t));
    r
}

// ---------------------------------------------------------------------------
// Laws
// ---------------------------------------------------------------------------

/// Where each call has its output, each call that is handed back is followed by one
/// result, which bears its id.
pub proof fn law_each_call_has_its_result(calls: Seq<CallView>, outputs: Seq<Seq<char>>, thoughts: Seq<JsonView>, i: int)
    requires
        calls.len() == outputs.len(),
        0 <= i < calls.len(),
    ensures
        result_messages(calls, outputs, thoughts)[0] == message(
            "assistant"@,
            JsonView::Array(thoughts + calls.map_values(|c: CallView| tool_use_block(c))),
        ),
        result_blocks(calls, outputs).len() == calls.len(),
        result_blocks(calls, outputs)[i] == tool_result_block(calls[i], outputs[i]),
{
}

/// The last user message of a request bears no mark that it did not bring: what may
/// still change is not kept by the server.
pub proof fn law_last_user_message_is_not_kept(messages: Seq<JsonView>, i: int)
    requires
        user_from_end(messages, 1) == Some(i),
    ensures
        0 <= i < messages.len(),
        kept_conversation(messages).len() == messages.len(),
        kept_conversation(messages)[i] == messages[i],
{
    lemma_user_order(messages, 1);
    lemma_user_order(messages, 2);
    lemma_user_distinct(messages);
}

/// Of the tools that are offered, the last one bears the mark, and no other.
pub proof fn law_last_tool_is_kept(tools: Seq<JsonView>, caching: bool, i: int)
    requires
        0 <= i < tools.len(),
    ensures
        offered_tools(tools, caching)[i].get("cache_control"@) is Some <==> caching && i == tools.len() - 1,
{
    reveal_strlit("cache_control");
    reveal_strlit("description");
    reveal_strlit("input_schema");
    reveal_strlit("name");
    assert("cache_control"@.len() == 13 && "description"@.len() == 11 && "input_schema"@.len() == 12 && "name"@.len() == 4);
    let e = offered_tool(tools[i])->Object_0;
    let key = "cache_control"@;
    assert(e.len() == 3 && e[0].0 != key && e.skip(1)[0].0 != key && e.skip(1).skip(1)[0].0 != key);
    assert(lookup(e.skip(1).skip(1).skip(1), key) is None);
    assert(lookup(e.skip(1).skip(1), key) is None);
    assert(lookup(e.skip(1), key) is None);
    assert(lookup(e, key) is None);
    law_put_then_lookup(e, key, cache_mark(), key);
}

/// The user messages that are counted from the end are there.
proof fn lemma_user_order(messages: Seq<JsonView>, n: int)
    ensures
        user_from_end(messages, n) matches Some(i) ==> 0 <= i < messages.len() && has_role(messages[i], "user"@),
    decreases messages.len(),
{
    if messages.len() > 0 {
        lemma_user_order(messages.drop_last(), n);
        lemma_user_order(messages.drop_last(), n - 1);
    }
}

/// The last user message but one stands before the last.
proof fn lemma_user_distinct(messages: Seq<JsonView>)
    ensures
        user_from_end(messages, 2) matches Some(j) ==> (user_from_end(messages, 1) matches Some(i) && j < i),
    decreases messages.len(),
{
    if messages.len() > 0 {
        lemma_user_order(messages.drop_last(), 1);
        lemma_user_distinct(messages.drop_last());
    }
}

/// Every message that is not the system's is sent, once, in order, whatever its content
/// looks like; the texts of the system's messages make up the system prompt.
pub proof fn law_every_message_is_sent(messages: Seq<JsonView>)
    ensures
        conversation(messages) == messages.filter(|m: JsonView| m.get_str("role"@) != Some("system"@)),
        system_parts(messages) == messages.filter_map(
            |m: JsonView|
                if m.get_str("role"@) == Some("system"@) {
                    m.get_str("content"@)
                } else {
                    None
                },
        ),
        (forall|i: int| 0 <= i < messages.len() ==> (#[trigger] messages[i]).get_str("role"@) != Some("system"@))
            ==> conversation(messages) == messages,
    decreases messages.len(),
{
    reveal(Seq::filter);
    if messages.len() > 0 {
        let front = messages.drop_last();
        law_every_message_is_sent(front);
        if forall|i: int| 0 <= i < messages.len() ==> (#[trigger] messages[i]).get_str("role"@) != Some("system"@) {
            assert forall|i: int| 0 <= i < front.len() implies (#[trigger] front[i]).get_str("role"@) != Some("system"@) by {
                assert(front[i] == messages[i]);
            }
            assert(messages[messages.len() - 1] == messages.last());
            assert(conversation(messages) =~= messages);
        }
    }
}

/// The message is the user's, and one other of the user's follows it.
pub open spec fn is_last_but_one(messages: Seq<JsonView>, i: int) -> bool {
    &&& 0 <= i < messages.len()
    &&& messages[i].get_str("role"@) == Some("user"@)
    &&& exists|j: int|
        i < j < messages.len() && (#[trigger] messages[j]).get_str("role"@) == Some("user"@) && forall|k: int|
            i < k < messages.len() && k != j ==> (#[trigger] messages[k]).get_str("role"@) != Some("user"@)
}

/// One message at most is marked for the server to keep: the last but one of the user's,
/// where there is one. All others are sent as they are.
pub proof fn law_one_message_is_marked(messages: Seq<JsonView>, i: int)
    requires
        0 <= i < messages.len(),
    ensures
        kept_conversation(messages).len() == messages.len(),
        is_last_but_one(messages, i) ==> kept_conversation(messages)[i] == kept_message(messages[i]),
        !is_last_but_one(messages, i) ==> kept_conversation(messages)[i] == messages[i],
{
    lemma_user_order(messages, 2);
    lemma_last_user(messages);
    lemma_last_but_one(messages);
    if is_last_but_one(messages, i) {
        let j = choose|j: int|
            i < j < messages.len() && (#[trigger] messages[j]).get_str("role"@) == Some("user"@) && forall|k: int|
                i < k < messages.len() && k != j ==> (#[trigger] messages[k]).get_str("role"@) != Some("user"@);
        lemma_found_last(messages, i, j);
    }
}

proof fn lemma_last_user(messages: Seq<JsonView>)
    ensures
        match user_from_end(messages, 1) {
            Some(j) => 0 <= j < messages.len() && has_role(messages[j], "user"@) && forall|k: int|
                j < k < messages.len() ==> !has_role(#[trigger] messages[k], "user"@),
            None => forall|k: int| 0 <= k < messages.len() ==> !has_role(#[trigger] messages[k], "user"@),
        },
    decreases messages.len(),
{
    if messages.len() > 0 {
        let front = messages.drop_last();
        lemma_last_user(front);
        assert forall|k: int| 0 <= k < front.len() implies front[k] == #[trigger] messages[k] by {}
    }
}

proof fn lemma_last_but_one(messages: Seq<JsonView>)
    ensures
        user_from_end(messages, 2) matches Some(i) ==> is_last_but_one(messages, i),
    decreases messages.len(),
{
    if messages.len() > 0 {
        let front = messages.drop_last();
        lemma_last_but_one(front);
        lemma_last_user(front);
        assert forall|k: int| 0 <= k < front.len() implies front[k] == #[trigger] messages[k] by {}
        if user_from_end(messages, 2) is Some {
            let i = user_from_end(messages, 2)->0;
            if has_role(messages.last(), "user"@) {
                let j = messages.len() - 1;
                assert(messages[j].get_str("role"@) == Some("user"@));
                assert forall|k: int| i < k < messages.len() && k != j implies (#[trigger] messages[k]).get_str("role"@)
                    != Some("user"@) by {
                    assert(!has_role(front[k], "user"@));
                }
                assert(has_role(front[i], "user"@));
            } else {
                let j = choose|j: int|
                    i < j < front.len() && (#[trigger] front[j]).get_str("role"@) == Some("user"@) && forall|k: int|
                        i < k < front.len() && k != j ==> (#[trigger] front[k]).get_str("role"@) != Some("user"@);
                assert(messages[j].get_str("role"@) == Some("user"@));
                assert forall|k: int| i < k < messages.len() && k != j implies (#[trigger] messages[k]).get_str("role"@)
                    != Some("user"@) by {
                    if k < front.len() {
                        assert(front[k].get_str("role"@) != Some("user"@));
                    }
                }
            }
        }
    }
}

proof fn lemma_found_last(messages: Seq<JsonView>, i: int, j: int)
    requires
        0 <= i < j < messages.len(),
        has_role(messages[i], "user"@),
        has_role(messages[j], "user"@),
        forall|k: int| i < k < messages.len() && k != j ==> !has_role(#[trigger] messages[k], "user"@),
    ensures
        user_from_end(messages, 2) == Some(i),
    decreases messages.len(),
{
    let front = messages.drop_last();
    assert forall|k: int| 0 <= k < front.len() implies front[k] == #[trigger] messages[k] by {}
    if j < messages.len() - 1 {
        assert(!has_role(messages[messages.len() - 1], "user"@));
        lemma_found_last(front, i, j);
    } else {
        lemma_last_user(front);
        assert(has_role(front[i], "user"@));
        let f = user_from_end(front, 1)->0;
        if f != i {
            assert(f > i);
            assert(!has_role(messages[f], "user"@));
        }
    }
}

/// A message that is marked says what it said: a text becomes a block of that text, and
/// of blocks only the last is changed, by the mark. Nothing else of it changes.
pub proof fn law_mark_keeps_content(m: JsonView, key: Seq<char>)
    requires
        m is Object,
    ensures
        key != "content"@ ==> kept_message(m).get(key) == m.get(key),
        m.get("content"@) matches Some(JsonView::Str(s)) ==> {
            let blocks = kept_message(m).get_array("content"@);
            &&& blocks matches Some(b) && b.len() == 1 && b[0].get_str("text"@) == Some(s) && b[0].get_str("type"@)
                == Some("text"@) && b[0].get("cache_control"@) == Some(cache_mark())
        },
        m.get("content"@) matches Some(JsonView::Array(a)) ==> {
            let blocks = kept_message(m).get_array("content"@);
            &&& blocks matches Some(b) && b.len() == a.len()
            &&& forall|k: int| 0 <= k < a.len() - 1 ==> #[trigger] (blocks->0)[k] == a[k]
            &&& a.len() > 0 && key != "cache_control"@ ==> (blocks->0).last().get(key) == a.last().get(key)
            &&& a.len() > 0 && a.last() is Object && a.last().get("cache_control"@) is None ==> (blocks->0).last().get(
                "cache_control"@,
            ) == Some(cache_mark())
        },
{
    let e = m->Object_0;
    match m.get("content"@) {
        Some(JsonView::Str(s)) => {
            let v = JsonView::Array(seq![kept_text_block(s)]);
            law_put_then_lookup(e, "content"@, v, key);
            lemma_kept_text(s);
        },
        Some(JsonView::Array(a)) => {
            law_put_then_lookup(e, "content"@, JsonView::Array(last_kept(a)), key);
            if a.len() > 0 && a.last() is Object {
                law_put_then_lookup(a.last()->Object_0, "cache_control"@, cache_mark(), key);
            }
        },
        _ => {},
    }
}

proof fn lemma_kept_text(s: Seq<char>)
    ensures
        kept_text_block(s).get_str("text"@) == Some(s),
        kept_text_block(s).get_str("type"@) == Some("text"@),
        kept_text_block(s).get("cache_control"@) == Some(cache_mark()),
        text_block(s).get_str("text"@) == Some(s),
        text_block(s).get_str("type"@) == Some("text"@),
        text_block(s).get("cache_control"@) is None,
{
    reveal_strlit("cache_control");
    reveal_strlit("text");
    reveal_strlit("type");
    assert("cache_control"@.len() == 13 && "text"@.len() == 4 && "type"@.len() == 4);
    assert("text"@[1] == 'e' && "type"@[1] == 'y');
    reveal_with_fuel(lookup, 4);
    let e = kept_text_block(s)->Object_0;
    assert(e.skip(1)[0] == e[1] && e.skip(1).skip(1)[0] == e[2]);
    let f = text_block(s)->Object_0;
    assert(f.skip(1)[0] == f[1]);
}

/// What a request holds: the model, its limit, the conversation, the system's texts
/// where there are any, the tools where any are offered, and how the model is to think
/// where that is said.
pub proof fn law_request_is_complete(
    model: Seq<char>,
    max_tokens: int,
    caching: bool,
    thinking: Option<JsonView>,
    messages: Seq<JsonView>,
    tools: Option<Seq<JsonView>>,
)
    ensures
        ({
            let body = body_of(model, max_tokens, caching, thinking, messages, tools);
            let talk = messages.filter(|m: JsonView| m.get_str("role"@) != Some("system"@));
            &&& body.get("model"@) == Some(JsonView::Str(model))
            &&& body.get("max_tokens"@) == Some(whole(max_tokens))
            &&& !caching ==> body.get_array("messages"@) == Some(talk)
            &&& caching ==> body.get_array("messages"@) == Some(kept_conversation(talk))
            &&& body.get("thinking"@) == thinking
            &&& (body.get("system"@) is Some) == (system_parts(messages).len() > 0)
            &&& system_parts(messages).len() > 0 ==> body.get("system"@) == Some(
                system_value(system_parts(messages), caching),
            )
            &&& (body.get("tools"@) is Some) == (tools is Some && tools->0.len() > 0)
            &&& body.get("tools"@) is Some ==> body.get_array("tools"@) == Some(offered_tools(tools->0, caching))
        }),
{
    law_every_message_is_sent(messages);
    reveal_strlit("model");
    reveal_strlit("max_tokens");
    reveal_strlit("messages");
    reveal_strlit("thinking");
    reveal_strlit("system");
    reveal_strlit("tools");
    let (k1, k2, k3, k4, k5, k6) = ("max_tokens"@, "messages"@, "model"@, "system"@, "tools"@, "thinking"@);
    assert(k1.len() == 10 && k2.len() == 8 && k3.len() == 5 && k4.len() == 6 && k5.len() == 5 && k6.len() == 8);
    assert(k2[0] == 'm' && k6[0] == 't' && k3[0] == 'm' && k5[0] == 't');
    let talk = conversation(messages);
    let parts = system_parts(messages);
    let b0 = plain_body(model, max_tokens, if caching { kept_conversation(talk) } else { talk });
    let e0 = b0->Object_0;
    reveal_with_fuel(lookup, 4);
    assert(e0.skip(1)[0] == e0[1] && e0.skip(1).skip(1)[0] == e0[2]);
    let sv = system_value(parts, caching);
    let b1 = if parts.len() > 0 { b0.with(k4, sv) } else { b0 };
    let e1 = b1->Object_0;
    law_put_then_lookup(e0, k4, sv, k1);
    law_put_then_lookup(e0, k4, sv, k2);
    law_put_then_lookup(e0, k4, sv, k3);
    law_put_then_lookup(e0, k4, sv, k5);
    law_put_then_lookup(e0, k4, sv, k6);
    let tv = JsonView::Array(offered_tools(tools->0, caching));
    law_put_then_lookup(e1, k5, tv, k1);
    law_put_then_lookup(e1, k5, tv, k2);
    law_put_then_lookup(e1, k5, tv, k3);
    law_put_then_lookup(e1, k5, tv, k4);
    law_put_then_lookup(e1, k5, tv, k6);
    let b2 = match tools {
        Some(t) if t.len() > 0 => b1.with(k5, JsonView::Array(offered_tools(t, caching))),
        _ => b1,
    };
    let e2 = b2->Object_0;
    if thinking is Some {
        let t = thinking->0;
        law_put_then_lookup(e2, k6, t, k1);
        law_put_then_lookup(e2, k6, t, k2);
        law_put_then_lookup(e2, k6, t, k3);
        law_put_then_lookup(e2, k6, t, k4);
        law_put_then_lookup(e2, k6, t, k5);
    }
}

/// The system prompt holds every text, in order: as blocks of which the first bears the
/// mark, or in one text with empty lines between them.
pub proof fn law_system_holds_every_text(parts: Seq<Seq<char>>, i: int)
    requires
        0 <= i < parts.len(),
    ensures
        system_value(parts, false) == JsonView::Str(join_of(parts, "\n\n"@)),
        system_value(parts, true) matches JsonView::Array(b) && b.len() == parts.len() && b[i].get_str("text"@) == Some(
            parts[i],
        ) && b[i].get_str("type"@) == Some("text"@) && (b[i].get("cache_control"@) is Some <==> i == 0),
{
    lemma_kept_text(parts[i]);
}

/// Every tool is offered, in order, under its own name, with what is said of it and the
/// schema of its arguments.
pub proof fn law_every_tool_is_offered(tools: Seq<JsonView>, caching: bool, i: int)
    requires
        0 <= i < tools.len(),
    ensures
        ({
            let offered = offered_tools(tools, caching);
            let f = or_null(tools[i].get("function"@));
            &&& offered.len() == tools.len()
            &&& f.get("name"@) is Some ==> offered[i].get("name"@) == f.get("name"@)
            &&& f.get("description"@) is Some ==> offered[i].get("description"@) == f.get("description"@)
            &&& f.get("parameters"@) is Some ==> offered[i].get("input_schema"@) == f.get("parameters"@)
        }),
{
    reveal_strlit("cache_control");
    reveal_strlit("description");
    reveal_strlit("input_schema");
    reveal_strlit("name");
    let (k0, k1, k2, k3) = ("cache_control"@, "description"@, "input_schema"@, "name"@);
    assert(k0.len() == 13 && k1.len() == 11 && k2.len() == 12 && k3.len() == 4);
    let e = offered_tool(tools[i])->Object_0;
    reveal_with_fuel(lookup, 4);
    assert(e.skip(1)[0] == e[1] && e.skip(1).skip(1)[0] == e[2]);
    law_put_then_lookup(e, k0, cache_mark(), k1);
    law_put_then_lookup(e, k0, cache_mark(), k2);
    law_put_then_lookup(e, k0, cache_mark(), k3);
}

/// What comes of a reply in one piece: each of its tool calls, once, in order, every
/// text, and every thought, whatever stands between them.
pub proof fn law_every_part_counts(value: JsonView, content: Seq<JsonView>)
    requires
        value.get("content"@) == Some(JsonView::Array(content)),
    ensures
        reply_of(value).usage == value.get("usage"@),
        reply_of(value).tool_calls == content.filter_map(
            |b: JsonView|
                if b.get_str("type"@) == Some("tool_use"@) {
                    Some(
                        CallView {
                            id: b.text_at("id"@),
                            name: b.text_at("name"@),
                            arguments: match b.get("input"@) {
                                Some(v) => v,
                                None => JsonView::Object(seq![]),
                            },
                            raw_arguments: None,
                            raw_arguments_error: None,
                        },
                    )
                } else {
                    None
                },
        ),
        reply_of(value).text == trim_of(
            join_of(
                content.filter_map(
                    |b: JsonView|
                        if b.get_str("type"@) == Some("text"@) {
                            b.get_str("text"@)
                        } else {
                            None
                        },
                ),
                "\n"@,
            ),
        ),
        reply_of(value).reasoning == trim_of(
            join_of(
                content.filter_map(
                    |b: JsonView|
                        if b.get_str("type"@) == Some("thinking"@) {
                            Some(b.text_at("thinking"@))
                        } else {
                            None
                        },
                ),
                "\n\n"@,
            ),
        ),
        reply_of(value).reasoning_blocks == content.filter_map(
            |b: JsonView|
                if b.get_str("type"@) == Some("thinking"@) {
                    Some(thinking_block(b.text_at("thinking"@), b.get_str("signature"@)))
                } else {
                    None
                },
        ),
{
    lemma_gathered_parts(content);
}

proof fn lemma_gathered_parts(content: Seq<JsonView>)
    ensures
        gather(content).calls == content.filter_map(
            |b: JsonView|
                if b.get_str("type"@) == Some("tool_use"@) {
                    Some(
                        CallView {
                            id: b.text_at("id"@),
                            name: b.text_at("name"@),
                            arguments: match b.get("input"@) {
                                Some(v) => v,
                                None => JsonView::Object(seq![]),
                            },
                            raw_arguments: None,
                            raw_arguments_error: None,
                        },
                    )
                } else {
                    None
                },
        ),
        gather(content).texts == content.filter_map(
            |b: JsonView|
                if b.get_str("type"@) == Some("text"@) {
                    b.get_str("text"@)
                } else {
                    None
                },
        ),
        gather(content).thoughts == content.filter_map(
            |b: JsonView|
                if b.get_str("type"@) == Some("thinking"@) {
                    Some(b.text_at("thinking"@))
                } else {
                    None
                },
        ),
        gather(content).blocks == content.filter_map(
            |b: JsonView|
                if b.get_str("type"@) == Some("thinking"@) {
                    Some(thinking_block(b.text_at("thinking"@), b.get_str("signature"@)))
                } else {
                    None
                },
        ),
    decreases content.len(),
{
    reveal_strlit("text");
    reveal_strlit("tool_use");
    reveal_strlit("thinking");
    reveal_strlit("");
    assert("text"@.len() == 4 && "tool_use"@.len() == 8 && "thinking"@.len() == 8 && ""@.len() == 0);
    assert("tool_use"@[1] == 'o' && "thinking"@[1] == 'h');
    if content.len() > 0 {
        lemma_gathered_parts(content.drop_last());
    }
}

/// A block of thoughts holds the thought, and the signature exactly where there is one.
pub proof fn law_thoughts_are_handed_back(thought: Seq<char>, signature: Option<Seq<char>>)
    ensures
        thinking_block(thought, signature).get_str("type"@) == Some("thinking"@),
        thinking_block(thought, signature).get_str("thinking"@) == Some(thought),
        thinking_block(thought, signature).get_str("signature"@) == signature,
{
    reveal_strlit("thinking");
    reveal_strlit("type");
    reveal_strlit("signature");
    let (k1, k2, k3) = ("thinking"@, "type"@, "signature"@);
    assert(k1.len() == 8 && k2.len() == 4 && k3.len() == 9);
    let e = seq![(k1, JsonView::Str(thought)), (k2, JsonView::Str("thinking"@))];
    reveal_with_fuel(lookup, 3);
    assert(e.skip(1)[0] == e[1]);
    if signature is Some {
        law_put_then_lookup(e, k3, JsonView::Str(signature->0), k1);
        law_put_then_lookup(e, k3, JsonView::Str(signature->0), k2);
    }
}

/// What is handed back of calls: two messages, the assistant's with the thoughts and
/// every call, in order, and the user's with every output, each under its call's id.
pub proof fn law_results_are_handed_back(
    calls: Seq<CallView>,
    outputs: Seq<Seq<char>>,
    thoughts: Seq<JsonView>,
    i: int,
)
    requires
        calls.len() == outputs.len(),
        0 <= i < calls.len(),
    ensures
        ({
            let sent = result_messages(calls, outputs, thoughts);
            let said = sent[0].get_array("content"@);
            let told = sent[1].get_array("content"@);
            &&& sent.len() == 2
            &&& sent[0].get_str("role"@) == Some("assistant"@) && sent[1].get_str("role"@) == Some("user"@)
            &&& said is Some && said->0.len() == thoughts.len() + calls.len()
            &&& said->0.take(thoughts.len() as int) == thoughts
            &&& (said->0)[thoughts.len() + i].get_str("type"@) == Some("tool_use"@)
            &&& (said->0)[thoughts.len() + i].get_str("id"@) == Some(calls[i].id)
            &&& (said->0)[thoughts.len() + i].get_str("name"@) == Some(calls[i].name)
            &&& (said->0)[thoughts.len() + i].get("input"@) == Some(calls[i].arguments)
            &&& told is Some && told->0.len() == calls.len()
            &&& (told->0)[i].get_str("type"@) == Some("tool_result"@)
            &&& (told->0)[i].get_str("tool_use_id"@) == Some(calls[i].id)
            &&& (told->0)[i].get_str("content"@) == Some(outputs[i])
        }),
{
    reveal_strlit("content");
    reveal_strlit("role");
    reveal_strlit("id");
    reveal_strlit("input");
    reveal_strlit("name");
    reveal_strlit("type");
    reveal_strlit("tool_use_id");
    assert("content"@.len() == 7 && "role"@.len() == 4 && "id"@.len() == 2 && "input"@.len() == 5 && "name"@.len() == 4);
    assert("type"@.len() == 4 && "tool_use_id"@.len() == 11 && "name"@[0] == 'n' && "type"@[0] == 't');
    reveal_with_fuel(lookup, 5);
    let sent = result_messages(calls, outputs, thoughts);
    let m0 = sent[0]->Object_0;
    let m1 = sent[1]->Object_0;
    assert(m0.skip(1)[0] == m0[1] && m1.skip(1)[0] == m1[1]);
    let u = tool_use_block(calls[i])->Object_0;
    assert(u.skip(1)[0] == u[1] && u.skip(1).skip(1)[0] == u[2] && u.skip(1).skip(1).skip(1)[0] == u[3]);
    let t = tool_result_block(calls[i], outputs[i])->Object_0;
    assert(t.skip(1)[0] == t[1] && t.skip(1).skip(1)[0] == t[2]);
    let said = thoughts + calls.map_values(|c: CallView| tool_use_block(c));
    assert(said[thoughts.len() + i] == tool_use_block(calls[i]));
    assert(said.take(thoughts.len() as int) =~= thoughts);
}

/// A setting is on where it says so in one of three words, whatever their case; any other
/// word turns it off, and without a word it is what it is by default.
pub proof fn law_settings_are_read(value: Seq<char>, default: bool)
    ensures
        flag(Some(value), default) <==> lowercased(value) == "1"@ || lowercased(value) == "true"@ || lowercased(value)
            == "yes"@,
        flag(None, default) == default,
        text_or(Some(value), Seq::empty()) == value,
        text_or(None, value) == value,
        unsigned64_of(value) matches Some(n) ==> max_tokens_of(Some(value)) == n,
        unsigned64_of(value) is None ==> max_tokens_of(Some(value)) == 32768,
        max_tokens_of(None) == 32768,
{
}

/// A failure may pass where the server is busy or at fault, or the way to it is; any other
/// reply of the server is final.
pub proof fn law_failures_pass_iff(code: u16)
    ensures
        passing(Failure::Status(code)) <==> code == 429 || (500 <= code && code < 600),
        passing(Failure::Io) && passing(Failure::Timeout),
        passing(Failure::ConnectionFailed) && passing(Failure::HostNotFound),
        !passing(Failure::Other),
{
}

/// A message bears the mark once: one whose last block bears it, or whose content is
/// neither a text nor a list that ends in a block, stays as it is.
pub proof fn law_mark_is_set_once(m: JsonView, blocks: Seq<JsonView>)
    ensures
        m.get("content"@) is None ==> kept_message(m) == m,
        m.get("content"@) matches Some(c) && !(c is Str) && !(c is Array) ==> kept_message(m) == m,
        blocks.len() == 0 || !(blocks.last() is Object) || blocks.last().get("cache_control"@) is Some ==> last_kept(
            blocks,
        ) == blocks,
        cache_mark().get_str("type"@) == Some("ephemeral"@),
        cache_mark().get_str("ttl"@) == Some("1h"@),
{
    reveal_strlit("ttl");
    reveal_strlit("type");
    assert("ttl"@.len() == 3 && "type"@.len() == 4);
    let e = cache_mark()->Object_0;
    crate::ordered::law_lookup_finds_first(e, "ttl"@, 0);
    crate::ordered::law_lookup_finds_first(e, "type"@, 1);
}

/// A tool without a description or without parameters is offered with none.
pub proof fn law_bare_tool_is_offered(t: JsonView)
    ensures
        ({
            let f = or_null(t.get("function"@));
            &&& f.get("description"@) is None ==> offered_tool(t).get_str("description"@) == Some(""@)
            &&& f.get("parameters"@) is None ==> offered_tool(t).get("input_schema"@) == Some(JsonView::Object(seq![]))
            &&& f.get("name"@) is None ==> offered_tool(t).get("name"@) == Some(JsonView::Null)
        }),
{
    reveal_strlit("description");
    reveal_strlit("input_schema");
    reveal_strlit("name");
    assert("description"@.len() == 11 && "input_schema"@.len() == 12 && "name"@.len() == 4);
    let e = offered_tool(t)->Object_0;
    crate::ordered::law_lookup_finds_first(e, "description"@, 0);
    crate::ordered::law_lookup_finds_first(e, "input_schema"@, 1);
    crate::ordered::law_lookup_finds_first(e, "name"@, 2);
}

/// The model is asked to think as it sees fit, and to sum its thoughts up.
pub proof fn law_thinking_is_adaptive()
    ensures
        adaptive_thinking().get_str("type"@) == Some("adaptive"@),
        adaptive_thinking().get_str("display"@) == Some("summarized"@),
{
    reveal_strlit("display");
    reveal_strlit("type");
    assert("display"@.len() == 7 && "type"@.len() == 4);
    let e = adaptive_thinking()->Object_0;
    crate::ordered::law_lookup_finds_first(e, "display"@, 0);
    crate::ordered::law_lookup_finds_first(e, "type"@, 1);
}

/// A call that failed is made again twice at most, and only where the failure may pass.
/// The second wait is twice the first one, which is half a second.
pub proof fn law_waits_grow(failure: Failure, attempt: u32, wait: Option<u64>)
    requires
        call_ensures(retry_delay, (attempt, failure), wait),
    ensures
        wait is Some <==> attempt < 2 && passing(failure),
        wait is Some && attempt == 0 ==> wait == Some(500u64),
        wait is Some && attempt == 1 ==> wait == Some(1000u64),
{
    vstd::arithmetic::power2::lemma2_to64();
}

/// Slashes at the end of the base address make no difference to where messages are sent.
pub proof fn law_last_slash_is_ignored(a: AnthropicModel, b: AnthropicModel, from_a: String, from_b: String)
    requires
        call_ensures(AnthropicModel::messages_url, (&a,), from_a),
        call_ensures(AnthropicModel::messages_url, (&b,), from_b),
        b.base_url@ == a.base_url@.push('/'),
    ensures
        from_a@ == from_b@,
        a.base_url@.len() > 0 && a.base_url@.last() != '/' ==> from_a@ == a.base_url@ + "/v1/messages"@,
{
    reveal_strlit("/");
    assert("/"@ =~= seq!['/']);
    assert("/"@[0] == '/');
    assert(b.base_url@.drop_last() =~= a.base_url@);
}

/// A request whose reply is streamed is the request itself, but that it asks for the
/// stream.
pub proof fn law_stream_is_asked_for(body: Json, asked: Json, other: Seq<char>)
    requires
        call_ensures(streaming_body, (&body,), asked),
        body@ is Object,
    ensures
        asked@.get("stream"@) == Some(JsonView::Bool(true)),
        other != "stream"@ ==> asked@.get(other) == body@.get(other),
{
    crate::json::law_value_is_set(body@, "stream"@, JsonView::Bool(true), other);
}

} // verus!
