//! A reply that comes in pieces: its lines, its events, and what they add up to.
use vstd::prelude::*;

use crate::json::{copy_or_null, maybe, maybe_ref, number_value, object, or_null, whole, entries_view, Json, JsonView};
use crate::json_codec::{compact, compact_text, json_parse, parse_json};
use crate::numbers::{decimal, decimal_text};
use crate::ordered::lookup;
use crate::text::{begins, join, join_of, lemma_texts_push, same, strip_prefix, strip_trailing, strip_trailing_of, texts, trim_of, trim_start, trim_start_of};
use super::anthropic::{empty_object, nothing_gathered, thinking_block, Gathered, GatheredView};
use super::{maybe_text, CallView, ChatResponse, ResponseView, ToolCall};

verus! {

/// How many blocks a reply may have.
pub const MAX_CONTENT_BLOCKS: usize = 4096;

/// A block of a reply, as far as it has come.
pub enum ContentBlockAcc {
    Text(String),
    /// A tool call: its id, its name and the text of its arguments.
    ToolUse(String, String, String),
    /// A thought, and its signature.
    Thinking(String, Option<String>),
    Other,
}

/// A reply, as far as it has come.
pub struct StreamAccumulator {
    pub blocks: Vec<ContentBlockAcc>,
    pub message_usage: Option<Json>,
    pub delta_output_tokens: Option<u64>,
}

/// What a block says.
pub enum BlockView {
    Text(Seq<char>),
    ToolUse(Seq<char>, Seq<char>, Seq<char>),
    Thinking(Seq<char>, Option<Seq<char>>),
    Other,
}

/// What a reply says, as far as it has come.
pub struct StreamView {
    pub blocks: Seq<BlockView>,
    pub usage: Option<JsonView>,
    pub output_tokens: Option<u64>,
}

impl ContentBlockAcc {
    /// What the block says.
    pub open spec fn view(&self) -> BlockView {
        match self {
            ContentBlockAcc::Text(s) => BlockView::Text(s@),
            ContentBlockAcc::ToolUse(id, name, json) => BlockView::ToolUse(id@, name@, json@),
            ContentBlockAcc::Thinking(s, signature) => BlockView::Thinking(s@, maybe_text(*signature)),
            ContentBlockAcc::Other => BlockView::Other,
        }
    }
}

/// What a list of blocks says.
pub open spec fn blocks_view(v: Seq<ContentBlockAcc>) -> Seq<BlockView> {
    v.map_values(|b: ContentBlockAcc| b@)
}

impl StreamAccumulator {
    /// What the reply says.
    pub open spec fn view(&self) -> StreamView {
        StreamView {
            blocks: blocks_view(self.blocks@),
            usage: maybe(self.message_usage),
            output_tokens: self.delta_output_tokens,
        }
    }
}

// ---------------------------------------------------------------------------
// Events
// ---------------------------------------------------------------------------

/// Which block an event is about.
pub open spec fn event_index(evt: JsonView) -> int {
    match evt.get_u64("index"@) {
        Some(i) => i,
        None => 0,
    }
}

/// The event is about one block.
pub open spec fn about_block(evt: JsonView) -> bool {
    evt.text_at("type"@) == "content_block_start"@ || evt.text_at("type"@) == "content_block_delta"@
}

/// What is wrong with an event, if anything is.
pub open spec fn event_fault(evt: JsonView) -> Option<Seq<char>> {
    if about_block(evt) && event_index(evt) >= MAX_CONTENT_BLOCKS {
        Some(
            "Anthropic stream content_block index "@ + decimal(event_index(evt) as nat) + " exceeds the maximum of 4096"@,
        )
    } else if evt.text_at("type"@) == "error"@ {
        Some("Anthropic stream error: "@ + compact(or_null(evt.get("error"@))))
    } else {
        None
    }
}

/// The blocks, and as many empty ones as it takes for the `i`th to be there.
pub open spec fn extended(blocks: Seq<BlockView>, i: int) -> Seq<BlockView> {
    if blocks.len() > i {
        blocks
    } else {
        blocks + Seq::new((i + 1 - blocks.len()) as nat, |k: int| BlockView::Other)
    }
}

/// The block that an event begins.
pub open spec fn begun(evt: JsonView) -> BlockView {
    let cb = or_null(evt.get("content_block"@));
    let kind = cb.text_at("type"@);
    if kind == "text"@ {
        BlockView::Text(Seq::empty())
    } else if kind == "tool_use"@ {
        BlockView::ToolUse(cb.text_at("id"@), cb.text_at("name"@), Seq::empty())
    } else if kind == "thinking"@ {
        BlockView::Thinking(Seq::empty(), None)
    } else {
        BlockView::Other
    }
}

/// A block with a piece more.
pub open spec fn grown(block: BlockView, delta: JsonView) -> BlockView {
    let kind = delta.text_at("type"@);
    match block {
        BlockView::Text(s) => if kind == "text_delta"@ {
            BlockView::Text(s + delta.text_at("text"@))
        } else {
            block
        },
        BlockView::ToolUse(id, name, json) => if kind == "input_json_delta"@ {
            BlockView::ToolUse(id, name, json + delta.text_at("partial_json"@))
        } else {
            block
        },
        BlockView::Thinking(s, signature) => if kind == "thinking_delta"@ {
            BlockView::Thinking(s + delta.text_at("thinking"@), signature)
        } else if kind == "signature_delta"@ {
            BlockView::Thinking(
                s,
                Some(match signature {
                    Some(old) => old + delta.text_at("signature"@),
                    None => delta.text_at("signature"@),
                }),
            )
        } else {
            block
        },
        BlockView::Other => block,
    }
}

/// The reply once an event has come.
pub open spec fn advanced(s: StreamView, evt: JsonView) -> StreamView {
    let kind = evt.text_at("type"@);
    let i = event_index(evt);
    let blocks = extended(s.blocks, i);
    if kind == "message_start"@ {
        StreamView {
            usage: match evt.get("message"@) {
                Some(m) => m.get("usage"@),
                None => None,
            },
            ..s
        }
    } else if kind == "content_block_start"@ {
        StreamView { blocks: blocks.update(i, begun(evt)), ..s }
    } else if kind == "content_block_delta"@ {
        StreamView { blocks: blocks.update(i, grown(blocks[i], or_null(evt.get("delta"@)))), ..s }
    } else if kind == "message_delta"@ {
        match evt.get("usage"@) {
            Some(u) => match u.get_u64("output_tokens"@) {
                Some(n) => StreamView { output_tokens: Some(n as u64), ..s },
                None => s,
            },
            None => s,
        }
    } else {
        s
    }
}

/// A block with a piece more.
fn grow(block: ContentBlockAcc, delta: &Json) -> (r: ContentBlockAcc)
    ensures
        r@ == grown(block@, delta@),
{
    let kind = delta.text_at("type");
    match block {
        ContentBlockAcc::Text(mut s) => {
            if same(kind.as_str(), "text_delta") {
                s.append(delta.text_at("text").as_str());
            }
            ContentBlockAcc::Text(s)
        },
        ContentBlockAcc::ToolUse(id, name, mut json) => {
            if same(kind.as_str(), "input_json_delta") {
                json.append(delta.text_at("partial_json").as_str());
            }
            ContentBlockAcc::ToolUse(id, name, json)
        },
        ContentBlockAcc::Thinking(mut s, signature) => {
            if same(kind.as_str(), "thinking_delta") {
                s.append(delta.text_at("thinking").as_str());
                ContentBlockAcc::Thinking(s, signature)
            } else if same(kind.as_str(), "signature_delta") {
                let piece = delta.text_at("signature");
                let all = match signature {
                    Some(mut old) => {
                        old.append(piece.as_str());
                        old
                    },
                    None => piece,
                };
                ContentBlockAcc::Thinking(s, Some(all))
            } else {
                ContentBlockAcc::Thinking(s, signature)
            }
        },
        ContentBlockAcc::Other => ContentBlockAcc::Other,
    }
}

/// The block that an event begins.
fn begin_block(evt: &Json) -> (r: ContentBlockAcc)
    ensures
        r@ == begun(evt@),
{
    let cb = copy_or_null(evt.get("content_block"));
    let kind = cb.text_at("type");
    if same(kind.as_str(), "text") {
        ContentBlockAcc::Text(String::new())
    } else if same(kind.as_str(), "tool_use") {
        ContentBlockAcc::ToolUse(cb.text_at("id"), cb.text_at("name"), String::new())
    } else if same(kind.as_str(), "thinking") {
        ContentBlockAcc::Thinking(String::new(), None)
    } else {
        ContentBlockAcc::Other
    }
}

/// Which block an event is about.
fn read_index(evt: &Json) -> (r: u64)
    ensures
        r == event_index(evt@),
{
    match evt.get_u64("index") {
        Some(i) => i,
        None => 0,
    }
}

/// What is wrong with an event, if anything is.
fn check_event(evt: &Json) -> (r: Option<String>)
    ensures
        match r {
            Some(e) => event_fault(evt@) == Some(e@),
            None => event_fault(evt@) is None,
        },
{
    let kind = evt.text_at("type");
    if same(kind.as_str(), "content_block_start") || same(kind.as_str(), "content_block_delta") {
        let i = read_index(evt);
        if i >= MAX_CONTENT_BLOCKS as u64 {
            let mut out = String::from_str("Anthropic stream content_block index ");
            out.append(decimal_text(i).as_str());
            out.append(" exceeds the maximum of 4096");
            return Some(out);
        }
    }
    if same(kind.as_str(), "error") {
        let mut out = String::from_str("Anthropic stream error: ");
        out.append(compact_text(&copy_or_null(evt.get("error"))).as_str());
        return Some(out);
    }
    None
}

impl StreamAccumulator {
    /// No more blocks than there may be.
    pub open spec fn wf(&self) -> bool {
        self.blocks@.len() <= MAX_CONTENT_BLOCKS
    }

    /// A reply of which nothing has come.
    pub fn new() -> (r: StreamAccumulator)
        ensures
            r.wf(),
            r@ == (StreamView { blocks: Seq::empty(), usage: None, output_tokens: None }),
    {
        let r = StreamAccumulator { blocks: Vec::new(), message_usage: None, delta_output_tokens: None };
        assert(r@.blocks =~= Seq::empty());
        r
    }

    /// Adds as many empty blocks as it takes for the `i`th to be there.
    fn ensure_index(&mut self, i: usize)
        requires
            i < MAX_CONTENT_BLOCKS,
        ensures
            final(self)@ == (StreamView { blocks: extended(old(self)@.blocks, i as int), ..old(self)@ }),
            final(self).blocks@.len() > i,
            old(self).wf() ==> final(self).wf(),
    {
        let ghost before = self@;
        while self.blocks.len() <= i
            invariant
                i < MAX_CONTENT_BLOCKS,
                self.message_usage == old(self).message_usage,
                self.delta_output_tokens == old(self).delta_output_tokens,
                old(self).wf() ==> self.wf(),
                before == old(self)@,
                self.blocks@.len() >= before.blocks.len(),
                before.blocks.len() > i ==> self.blocks@.len() == before.blocks.len(),
                before.blocks.len() <= i ==> self.blocks@.len() <= i + 1,
                forall|k: int|
                    0 <= k < self.blocks@.len() ==> (#[trigger] self.blocks@[k])@ == (if k < before.blocks.len() {
                        before.blocks[k]
                    } else {
                        BlockView::Other
                    }),
            decreases i + 1 - self.blocks@.len(),
        {
            self.blocks.push(ContentBlockAcc::Other);
        }
        assert(blocks_view(self.blocks@) =~= extended(before.blocks, i as int));
    }

    /// Takes in an event. One that is faulty leaves the reply as it was.
    pub fn handle_event(&mut self, evt: &Json) -> (r: Result<(), String>)
        ensures
            old(self).wf() ==> final(self).wf(),
            match event_fault(evt@) {
                Some(fault) => (r matches Err(e) && e@ == fault) && final(self)@ == old(self)@,
                None => r is Ok && final(self)@ == advanced(old(self)@, evt@),
            },
    {
        if let Some(fault) = check_event(evt) {
            return Err(fault);
        }
        let kind = evt.text_at("type");
        if same(kind.as_str(), "message_start") {
            self.message_usage = match evt.get("message") {
                Some(m) => match m.get("usage") {
                    Some(u) => Some(u.copy()),
                    None => None,
                },
                None => None,
            };
        } else if same(kind.as_str(), "content_block_start") {
            let i = read_index(evt) as usize;
            self.ensure_index(i);
            let block = begin_block(evt);
            let ghost before = self@;
            let ghost new = block@;
            self.blocks.set(i, block);
            assert(self@.blocks =~= before.blocks.update(i as int, new));
        } else if same(kind.as_str(), "content_block_delta") {
            let i = read_index(evt) as usize;
            self.ensure_index(i);
            let delta = copy_or_null(evt.get("delta"));
            let ghost before = self@;
            let mut block = ContentBlockAcc::Other;
            std::mem::swap(&mut self.blocks[i], &mut block);
            assert(block@ == before.blocks[i as int]);
            let block = grow(block, &delta);
            let ghost new = block@;
            self.blocks.set(i, block);
            assert(self@.blocks =~= before.blocks.update(i as int, new));
        } else if same(kind.as_str(), "message_delta") {
            if let Some(u) = evt.get("usage") {
                if let Some(n) = u.get_u64("output_tokens") {
                    self.delta_output_tokens = Some(n);
                }
            }
        }
        Ok(())
    }

    /// Takes in the text of an event.
    pub fn feed(&mut self, payload: &str) -> (r: Result<(), String>)
        ensures
            old(self).wf() ==> final(self).wf(),
            match json_parse(payload@) {
                Err(message) => (r matches Err(e) && e@ == message) && final(self)@ == old(self)@,
                Ok(evt) => match event_fault(evt) {
                    Some(fault) => (r matches Err(e) && e@ == fault) && final(self)@ == old(self)@,
                    None => r is Ok && final(self)@ == advanced(old(self)@, evt),
                },
            },
    {
        match parse_json(payload) {
            Ok(evt) => self.handle_event(&evt),
            Err(e) => Err(e),
        }
    }
}

// ---------------------------------------------------------------------------
// The end of a reply
// ---------------------------------------------------------------------------

/// A tool call, given what came of reading its arguments.
pub open spec fn read_call(
    id: Seq<char>,
    name: Seq<char>,
    json: Seq<char>,
    parsed: Result<JsonView, Seq<char>>,
) -> CallView {
    match parsed {
        Ok(arguments) => CallView { id, name, arguments, raw_arguments: None, raw_arguments_error: None },
        Err(e) => CallView {
            id,
            name,
            arguments: JsonView::Object(seq![]),
            raw_arguments: Some(json),
            raw_arguments_error: Some(e),
        },
    }
}

/// What a block of a reply adds at its end.
pub open spec fn settle_block(g: GatheredView, block: BlockView) -> GatheredView {
    match block {
        BlockView::Text(s) => if s.len() > 0 {
            g.with_text(s)
        } else {
            g
        },
        BlockView::ToolUse(id, name, json) => g.with_call(read_call(id, name, json, json_parse(json))),
        BlockView::Thinking(s, signature) => g.with_thought(s, signature),
        BlockView::Other => g,
    }
}

/// What the blocks of a reply say at its end.
pub open spec fn settle(blocks: Seq<BlockView>) -> GatheredView
    decreases blocks.len(),
{
    if blocks.len() == 0 {
        nothing_gathered()
    } else {
        settle_block(settle(blocks.drop_last()), blocks.last())
    }
}

/// The entry under `key` of the usage at the beginning, where there is one.
pub open spec fn carried(usage: Option<JsonView>, key: Seq<char>) -> Seq<(Seq<char>, JsonView)> {
    match usage {
        Some(u) => match u.get(key) {
            Some(v) => seq![(key, v)],
            None => seq![],
        },
        None => seq![],
    }
}

/// The usage of a reply: what went in, from its beginning, and what came out, from
/// its end.
pub open spec fn merged_usage(start: Option<JsonView>, output_tokens: Option<u64>) -> Option<JsonView> {
    let out = carried(start, "cache_creation_input_tokens"@) + carried(start, "cache_read_input_tokens"@) + carried(
        start,
        "input_tokens"@,
    ) + (match output_tokens {
        Some(n) => seq![("output_tokens"@, whole(n as int))],
        None => seq![],
    });
    if out.len() == 0 {
        None
    } else {
        Some(JsonView::Object(out))
    }
}

/// What a reply says at its end.
pub open spec fn finished(s: StreamView) -> ResponseView {
    settle(s.blocks).response(merged_usage(s.usage, s.output_tokens))
}

/// A tool call, given what came of reading its arguments.
pub fn tool_call_of(id: String, name: String, json: String, parsed: Result<Json, String>) -> (r: ToolCall)
    ensures
        r@ == read_call(
            id@,
            name@,
            json@,
            (match parsed {
                Ok(j) => Ok(j@),
                Err(e) => Err(e@),
            }),
        ),
{
    match parsed {
        Ok(arguments) => ToolCall { id, name, arguments, raw_arguments: None, raw_arguments_error: None },
        Err(e) => ToolCall {
            id,
            name,
            arguments: empty_object(),
            raw_arguments: Some(json),
            raw_arguments_error: Some(e),
        },
    }
}

/// Adds the entry under `key` of the usage at the beginning, where there is one.
fn carry(out: &mut Vec<(String, Json)>, usage: Option<&Json>, key: &str)
    ensures
        entries_view(final(out)@) == entries_view(old(out)@) + carried(maybe_ref(usage), key@),
{
    let ghost before = entries_view(out@);
    if let Some(u) = usage {
        if let Some(v) = u.get(key) {
            let new = (String::from_str(key), v.copy());
            let ghost newv = (new.0@, new.1@);
            out.push(new);
            assert(entries_view(out@) =~= before + seq![newv]);
            return;
        }
    }
    assert(entries_view(out@) =~= before + seq![]);
}

/// The usage of a reply: what went in, from its beginning, and what came out, from
/// its end.
pub fn merge_stream_usage(start_usage: Option<&Json>, delta_output_tokens: Option<u64>) -> (r: Option<Json>)
    ensures
        maybe(r) == merged_usage(maybe_ref(start_usage), delta_output_tokens),
{
    let mut out: Vec<(String, Json)> = Vec::new();
    let ghost start = maybe_ref(start_usage);
    carry(&mut out, start_usage, "cache_creation_input_tokens");
    carry(&mut out, start_usage, "cache_read_input_tokens");
    carry(&mut out, start_usage, "input_tokens");
    let ghost before = entries_view(out@);
    assert(before =~= carried(start, "cache_creation_input_tokens"@) + carried(start, "cache_read_input_tokens"@)
        + carried(start, "input_tokens"@));
    if let Some(n) = delta_output_tokens {
        let new = (String::from_str("output_tokens"), number_value(n));
        let ghost newv = (new.0@, new.1@);
        out.push(new);
        assert(entries_view(out@) =~= before + seq![newv]);
    } else {
        assert(entries_view(out@) =~= before + seq![]);
    }
    assert(entries_view(out@).len() == out@.len());
    if out.len() == 0 {
        None
    } else {
        Some(object(out))
    }
}

impl StreamAccumulator {
    /// What the reply says at its end.
    pub fn finish(self) -> (r: ChatResponse)
        ensures
            r@ == finished(self@),
    {
        let ghost all = self@.blocks;
        let mut g = Gathered::new();
        let blocks = self.blocks;
        assert(all.take(0) =~= Seq::empty());
        for block in it: blocks
            invariant
                it.seq() == blocks@,
                all == blocks_view(blocks@),
                g@ == settle(all.take(it.index())),
        {
            proof {
                assert(all.take(it.index() + 1).drop_last() =~= all.take(it.index()));
                assert(all.take(it.index() + 1).last() == block@);
            }
            match block {
                ContentBlockAcc::Text(s) => {
                    if !s.as_str().is_empty() {
                        g.add_text(s);
                    }
                },
                ContentBlockAcc::ToolUse(id, name, json) => {
                    let parsed = parse_json(json.as_str());
                    g.add_call(tool_call_of(id, name, json, parsed));
                },
                ContentBlockAcc::Thinking(s, signature) => {
                    g.add_thought(s, signature);
                },
                ContentBlockAcc::Other => {},
            }
        }
        assert(all.take(all.len() as int) =~= all);
        let usage = merge_stream_usage(self.message_usage.as_ref(), self.delta_output_tokens);
        g.into_response(usage)
    }
}

// ---------------------------------------------------------------------------
// Lines
// ---------------------------------------------------------------------------

/// The lines of an event whose end has not come.
pub struct EventLines {
    pub data: Vec<String>,
}

/// A line of the stream without its end.
pub open spec fn bare_line(line: Seq<char>) -> Seq<char> {
    strip_trailing_of(line, "\n\r"@)
}

/// The lines of the event that are held once a line has come.
pub open spec fn held_after(data: Seq<Seq<char>>, line: Seq<char>) -> Seq<Seq<char>> {
    let s = bare_line(line);
    if s.len() == 0 {
        Seq::empty()
    } else if begins(s, "data:"@) {
        data.push(trim_start_of(s.skip("data:"@.len() as int)))
    } else {
        data
    }
}

/// The text of the event that an empty line, or the end of the stream, completes.
pub open spec fn completed(data: Seq<Seq<char>>) -> Option<Seq<char>> {
    if data.len() > 0 {
        Some(join_of(data, "\n"@))
    } else {
        None
    }
}

impl EventLines {
    /// No lines.
    pub fn new() -> (r: EventLines)
        ensures
            texts(r.data@) == Seq::<Seq<char>>::empty(),
    {
        let r = EventLines { data: Vec::new() };
        assert(texts(r.data@) =~= Seq::empty());
        r
    }

    /// The text of the event that is complete, if one is.
    pub fn complete(&self) -> (r: Option<String>)
        ensures
            maybe_text(r) == completed(texts(self.data@)),
    {
        assert(texts(self.data@).len() == self.data@.len());
        if self.data.len() > 0 {
            Some(join(&self.data, "\n"))
        } else {
            None
        }
    }

    /// Takes in a line; an empty one completes an event, whose text is given.
    pub fn push_line(&mut self, line: &str) -> (r: Option<String>)
        ensures
            texts(final(self).data@) == held_after(texts(old(self).data@), line@),
            maybe_text(r) == (if bare_line(line@).len() == 0 {
                completed(texts(old(self).data@))
            } else {
                None
            }),
    {
        let s = strip_trailing(line, "\n\r");
        if s.is_empty() {
            let done = self.complete();
            self.data = Vec::new();
            assert(texts(self.data@) =~= Seq::empty());
            return done;
        }
        if let Some(rest) = strip_prefix(s, "data:") {
            let new = String::from_str(trim_start(rest));
            proof { lemma_texts_push(self.data@, new); }
            self.data.push(new);
        }
        None
    }
}

// ---------------------------------------------------------------------------
// Laws
// ---------------------------------------------------------------------------

/// Whatever events come, a reply never has more blocks than it may have.
pub proof fn law_blocks_are_bounded(s: StreamView, evt: JsonView)
    requires
        s.blocks.len() <= MAX_CONTENT_BLOCKS,
        event_fault(evt) is None,
    ensures
        advanced(s, evt).blocks.len() <= MAX_CONTENT_BLOCKS,
{
}

/// An event about one block leaves every other block as it was.
pub proof fn law_events_are_local(s: StreamView, evt: JsonView, k: int)
    requires
        0 <= k < s.blocks.len(),
        k != event_index(evt),
    ensures
        k < advanced(s, evt).blocks.len(),
        advanced(s, evt).blocks[k] == s.blocks[k],
{
}

/// A text that comes in two pieces adds up to what it says in one.
pub proof fn law_text_pieces_add_up(block: Seq<char>, one: JsonView, two: JsonView)
    requires
        one.text_at("type"@) == "text_delta"@,
        two.text_at("type"@) == "text_delta"@,
    ensures
        grown(grown(BlockView::Text(block), one), two) == BlockView::Text(
            block + (one.text_at("text"@) + two.text_at("text"@)),
        ),
{
    assert(block + one.text_at("text"@) + two.text_at("text"@) =~= block + (one.text_at("text"@) + two.text_at(
        "text"@,
    )));
}

/// What comes of a stream at its end: each tool call of it, once, in order, whatever
/// stands between them, with its id, its name and its arguments, or their text and the
/// reason where they cannot be read; every text that is not empty, one line after the
/// other; and every thought.
pub proof fn law_every_block_counts(s: StreamView)
    ensures
        finished(s).tool_calls == s.blocks.filter_map(
            |b: BlockView|
                match b {
                    BlockView::ToolUse(id, name, json) => Some(
                        CallView {
                            id,
                            name,
                            arguments: match json_parse(json) {
                                Ok(v) => v,
                                Err(_) => JsonView::Object(seq![]),
                            },
                            raw_arguments: if json_parse(json) is Ok {
                                None
                            } else {
                                Some(json)
                            },
                            raw_arguments_error: match json_parse(json) {
                                Ok(_) => None,
                                Err(e) => Some(e),
                            },
                        },
                    ),
                    _ => None,
                },
        ),
        finished(s).text == trim_of(
            join_of(
                s.blocks.filter_map(
                    |b: BlockView|
                        match b {
                            BlockView::Text(t) if t.len() > 0 => Some(t),
                            _ => None,
                        },
                ),
                "\n"@,
            ),
        ),
        finished(s).reasoning == trim_of(
            join_of(
                s.blocks.filter_map(
                    |b: BlockView|
                        match b {
                            BlockView::Thinking(t, _) => Some(t),
                            _ => None,
                        },
                ),
                "\n\n"@,
            ),
        ),
        finished(s).reasoning_blocks == s.blocks.filter_map(
            |b: BlockView|
                match b {
                    BlockView::Thinking(t, signature) => Some(thinking_block(t, signature)),
                    _ => None,
                },
        ),
{
    lemma_settled_parts(s.blocks);
}

proof fn lemma_settled_parts(blocks: Seq<BlockView>)
    ensures
        settle(blocks).calls == blocks.filter_map(
            |b: BlockView|
                match b {
                    BlockView::ToolUse(id, name, json) => Some(
                        CallView {
                            id,
                            name,
                            arguments: match json_parse(json) {
                                Ok(v) => v,
                                Err(_) => JsonView::Object(seq![]),
                            },
                            raw_arguments: if json_parse(json) is Ok {
                                None
                            } else {
                                Some(json)
                            },
                            raw_arguments_error: match json_parse(json) {
                                Ok(_) => None,
                                Err(e) => Some(e),
                            },
                        },
                    ),
                    _ => None,
                },
        ),
        settle(blocks).texts == blocks.filter_map(
            |b: BlockView|
                match b {
                    BlockView::Text(t) if t.len() > 0 => Some(t),
                    _ => None,
                },
        ),
        settle(blocks).thoughts == blocks.filter_map(
            |b: BlockView|
                match b {
                    BlockView::Thinking(t, _) => Some(t),
                    _ => None,
                },
        ),
        settle(blocks).blocks == blocks.filter_map(
            |b: BlockView|
                match b {
                    BlockView::Thinking(t, signature) => Some(thinking_block(t, signature)),
                    _ => None,
                },
        ),
    decreases blocks.len(),
{
    if blocks.len() > 0 {
        lemma_settled_parts(blocks.drop_last());
    }
}

/// An event of a kind, about the `i`th block.
pub open spec fn is_event(evt: JsonView, kind: Seq<char>, i: int) -> bool {
    evt.get_str("type"@) == Some(kind) && evt.get_u64("index"@) == Some(i)
}

/// A piece of a kind that an event brings.
pub open spec fn brings(evt: JsonView, kind: Seq<char>) -> bool {
    evt.get("delta"@) matches Some(d) && d.get_str("type"@) == Some(kind)
}

/// Each piece of a block is put behind what has come of it, whichever piece it is, and
/// a piece of another kind changes nothing.
pub proof fn law_pieces_are_added(s: StreamView, evt: JsonView, i: int, piece: Seq<char>)
    requires
        is_event(evt, "content_block_delta"@, i),
        0 <= i < s.blocks.len(),
    ensures
        ({
            let after = advanced(s, evt);
            let d = or_null(evt.get("delta"@));
            &&& after.blocks.len() == s.blocks.len()
            &&& after.usage == s.usage && after.output_tokens == s.output_tokens
            &&& brings(evt, "text_delta"@) && d.get_str("text"@) == Some(piece) ==> match s.blocks[i] {
                BlockView::Text(t) => after.blocks[i] == BlockView::Text(t + piece),
                _ => after.blocks[i] == s.blocks[i],
            }
            &&& brings(evt, "input_json_delta"@) && d.get_str("partial_json"@) == Some(piece) ==> match s.blocks[i] {
                BlockView::ToolUse(id, name, t) => after.blocks[i] == BlockView::ToolUse(id, name, t + piece),
                _ => after.blocks[i] == s.blocks[i],
            }
            &&& brings(evt, "thinking_delta"@) && d.get_str("thinking"@) == Some(piece) ==> match s.blocks[i] {
                BlockView::Thinking(t, g) => after.blocks[i] == BlockView::Thinking(t + piece, g),
                _ => after.blocks[i] == s.blocks[i],
            }
            &&& brings(evt, "signature_delta"@) && d.get_str("signature"@) == Some(piece) ==> match s.blocks[i] {
                BlockView::Thinking(t, None) => after.blocks[i] == BlockView::Thinking(t, Some(piece)),
                BlockView::Thinking(t, Some(g)) => after.blocks[i] == BlockView::Thinking(t, Some(g + piece)),
                _ => after.blocks[i] == s.blocks[i],
            }
        }),
{
    lemma_kinds_differ();
}

/// A block begins as its event says, wherever it stands, and empty.
pub proof fn law_blocks_begin(s: StreamView, evt: JsonView, i: int, id: Seq<char>, name: Seq<char>)
    requires
        is_event(evt, "content_block_start"@, i),
        0 <= i,
    ensures
        ({
            let after = advanced(s, evt);
            let cb = or_null(evt.get("content_block"@));
            &&& after.blocks.len() == (if s.blocks.len() > i { s.blocks.len() as int } else { i + 1 })
            &&& cb.get_str("type"@) == Some("text"@) ==> after.blocks[i] == BlockView::Text(Seq::empty())
            &&& cb.get_str("type"@) == Some("tool_use"@) && cb.get_str("id"@) == Some(id) && cb.get_str("name"@)
                == Some(name) ==> after.blocks[i] == BlockView::ToolUse(id, name, Seq::empty())
            &&& cb.get_str("type"@) == Some("thinking"@) ==> after.blocks[i] == BlockView::Thinking(Seq::empty(), None)
            &&& forall|k: int| s.blocks.len() <= k < i ==> #[trigger] after.blocks[k] is Other
        }),
{
    lemma_kinds_differ();
}

/// The kinds of events, and those of pieces, differ from one another.
proof fn lemma_kinds_differ()
    ensures
        "content_block_delta"@ != "message_start"@,
        "content_block_delta"@ != "content_block_start"@,
        "content_block_start"@ != "message_start"@,
        "text_delta"@ != "input_json_delta"@,
        "text_delta"@ != "thinking_delta"@,
        "text_delta"@ != "signature_delta"@,
        "input_json_delta"@ != "thinking_delta"@,
        "input_json_delta"@ != "signature_delta"@,
        "thinking_delta"@ != "signature_delta"@,
        "text"@ != "tool_use"@,
        "text"@ != "thinking"@,
        "tool_use"@ != "thinking"@,
        "message_delta"@ != "message_start"@,
        "message_delta"@ != "content_block_start"@,
        "message_delta"@ != "content_block_delta"@,
{
    reveal_strlit("content_block_delta");
    reveal_strlit("content_block_start");
    reveal_strlit("message_start");
    reveal_strlit("message_delta");
    reveal_strlit("text_delta");
    reveal_strlit("input_json_delta");
    reveal_strlit("thinking_delta");
    reveal_strlit("signature_delta");
    reveal_strlit("text");
    reveal_strlit("tool_use");
    reveal_strlit("thinking");
    assert("content_block_delta"@[14] == 'd' && "content_block_start"@[14] == 's');
    assert("message_start"@[8] == 's' && "message_delta"@[8] == 'd');
    assert("content_block_delta"@.len() == 19 && "content_block_start"@.len() == 19 && "message_start"@.len() == 13);
    assert("message_delta"@.len() == 13 && "text_delta"@.len() == 10 && "input_json_delta"@.len() == 16);
    assert("thinking_delta"@.len() == 14 && "signature_delta"@.len() == 15 && "text"@.len() == 4);
    assert("tool_use"@.len() == 8 && "thinking"@.len() == 8 && "tool_use"@[1] == 'o' && "thinking"@[1] == 'h');
}

/// The counts of a stream are those that it last gave: those of its beginning, and how
/// many tokens came out, each under its name; where it gave none, there are none.
pub proof fn law_usage_is_carried(s: StreamView)
    ensures
        ({
            let u = finished(s).usage;
            let start = or_null(s.usage);
            &&& or_null(u).get("input_tokens"@) == start.get("input_tokens"@)
            &&& or_null(u).get("cache_read_input_tokens"@) == start.get("cache_read_input_tokens"@)
            &&& or_null(u).get("cache_creation_input_tokens"@) == start.get("cache_creation_input_tokens"@)
            &&& or_null(u).get("output_tokens"@) == (match s.output_tokens {
                Some(n) => Some(whole(n as int)),
                None => None,
            })
            &&& u is None <==> start.get("input_tokens"@) is None && start.get("cache_read_input_tokens"@) is None
                && start.get("cache_creation_input_tokens"@) is None && s.output_tokens is None
        }),
{
    reveal_strlit("input_tokens");
    reveal_strlit("output_tokens");
    reveal_strlit("cache_read_input_tokens");
    reveal_strlit("cache_creation_input_tokens");
    let (k1, k2, k3, k4) = (
        "cache_creation_input_tokens"@,
        "cache_read_input_tokens"@,
        "input_tokens"@,
        "output_tokens"@,
    );
    assert(k1.len() == 27 && k2.len() == 23 && k3.len() == 12 && k4.len() == 13);
    let a = carried(s.usage, k1);
    let b = carried(s.usage, k2);
    let c = carried(s.usage, k3);
    let d = match s.output_tokens {
        Some(n) => seq![(k4, whole(n as int))],
        None => seq![],
    };
    let all = a + b + c + d;
    lemma_lookup_add(a + b + c, d, k1);
    lemma_lookup_add(a + b, c, k1);
    lemma_lookup_add(a, b, k1);
    lemma_lookup_add(a + b + c, d, k2);
    lemma_lookup_add(a + b, c, k2);
    lemma_lookup_add(a, b, k2);
    lemma_lookup_add(a + b + c, d, k3);
    lemma_lookup_add(a + b, c, k3);
    lemma_lookup_add(a, b, k3);
    lemma_lookup_add(a + b + c, d, k4);
    lemma_lookup_add(a + b, c, k4);
    lemma_lookup_add(a, b, k4);
    lemma_lookup_one(a, k1, k2, k3, k4);
    lemma_lookup_one(b, k2, k1, k3, k4);
    lemma_lookup_one(c, k3, k1, k2, k4);
    lemma_lookup_one(d, k4, k1, k2, k3);
}

/// One entry, or none, is found under its key and no other.
proof fn lemma_lookup_one(e: Seq<(Seq<char>, JsonView)>, key: Seq<char>, x: Seq<char>, y: Seq<char>, z: Seq<char>)
    requires
        e.len() <= 1,
        e.len() == 1 ==> e[0].0 == key,
        key != x && key != y && key != z,
    ensures
        lookup(e, key) == (if e.len() == 1 { Some(e[0].1) } else { None }),
        lookup(e, x) is None,
        lookup(e, y) is None,
        lookup(e, z) is None,
{
    reveal_with_fuel(lookup, 2);
}

/// What is looked up among entries is found among the first of them, or else among the
/// rest.
proof fn lemma_lookup_add(a: Seq<(Seq<char>, JsonView)>, b: Seq<(Seq<char>, JsonView)>, key: Seq<char>)
    ensures
        lookup(a + b, key) == (if lookup(a, key) is Some { lookup(a, key) } else { lookup(b, key) }),
    decreases a.len(),
{
    if a.len() == 0 {
        assert(a + b =~= b);
    } else {
        assert((a + b).skip(1) =~= a.skip(1) + b);
        lemma_lookup_add(a.skip(1), b, key);
    }
}

/// The counts that a stream gives are taken in: those at its beginning whole, and the
/// last count of what came out.
pub proof fn law_counts_are_taken_in(s: StreamView, evt: JsonView)
    ensures
        evt.get_str("type"@) == Some("message_start"@) ==> {
            &&& advanced(s, evt).usage == or_null(evt.get("message"@)).get("usage"@)
            &&& advanced(s, evt).blocks == s.blocks && advanced(s, evt).output_tokens == s.output_tokens
        },
        evt.get_str("type"@) == Some("message_delta"@) ==> {
            &&& advanced(s, evt).usage == s.usage && advanced(s, evt).blocks == s.blocks
            &&& match or_null(evt.get("usage"@)).get_u64("output_tokens"@) {
                Some(n) => advanced(s, evt).output_tokens == Some(n as u64),
                None => advanced(s, evt).output_tokens == s.output_tokens,
            }
        },
{
    lemma_kinds_differ();
}

/// A line of data is held behind those before it; a line of any other kind changes
/// nothing; an empty one begins anew. How a line ends does not matter.
pub proof fn law_data_lines_are_held(data: Seq<Seq<char>>, line: Seq<char>, rest: Seq<char>)
    requires
        line.len() > 0 ==> line.last() != '\n' && line.last() != '\r',
    ensures
        line == "data:"@ + rest ==> held_after(data, line + "\n"@) == data.push(trim_start_of(rest)) && held_after(
            data,
            line + "\r\n"@,
        ) == data.push(trim_start_of(rest)) && held_after(data, line) == data.push(trim_start_of(rest)),
        line.len() > 0 && !begins(line, "data:"@) ==> held_after(data, line + "\n"@) == data && held_after(data, line)
            == data,
        line.len() == 0 ==> held_after(data, line + "\n"@).len() == 0,
        completed(data) is Some <==> data.len() > 0,
        data.len() > 0 ==> completed(data) == Some(join_of(data, "\n"@)),
{
    reveal_strlit("\n");
    reveal_strlit("\r\n");
    reveal_strlit("\n\r");
    reveal_strlit("data:");
    let set = "\n\r"@;
    assert(set[0] == '\n' && set[1] == '\r');
    assert(line.len() > 0 ==> !set.contains(line.last())) by {
        if line.len() > 0 && set.contains(line.last()) {
            let k = choose|k: int| 0 <= k < set.len() && set[k] == line.last();
            assert(k == 0 || k == 1);
        }
    }
    assert(set.contains('\n') && set.contains('\r'));
    let one = line + "\n"@;
    let two = line + "\r\n"@;
    assert(one.last() == '\n' && one.drop_last() =~= line);
    assert(two.last() == '\n' && two.drop_last() =~= line.push('\r'));
    assert(line.push('\r').drop_last() =~= line);
    reveal_with_fuel(strip_trailing_of, 3);
    assert(bare_line(line) == line);
    assert(bare_line(one) == line);
    assert(bare_line(two) == line);
    if line == "data:"@ + rest {
        assert(line.take(5) =~= "data:"@);
        assert(line.skip(5) =~= rest);
    }
}

/// An event is refused exactly where it tells of an error, or is about a block beyond those
/// that a reply may have; each is told.
pub proof fn law_events_are_refused_iff(evt: JsonView)
    ensures
        ({
            let kind = evt.get_str("type"@);
            let block = kind == Some("content_block_start"@) || kind == Some("content_block_delta"@);
            let beyond = evt.get_u64("index"@) matches Some(i) && i >= 4096;
            &&& event_fault(evt) is Some <==> block && beyond || kind == Some("error"@)
            &&& block && beyond ==> event_fault(evt) == Some(
                "Anthropic stream content_block index "@ + decimal(evt.get_u64("index"@)->0 as nat)
                    + " exceeds the maximum of 4096"@,
            )
            &&& kind == Some("error"@) ==> event_fault(evt) == Some(
                "Anthropic stream error: "@ + compact(or_null(evt.get("error"@))),
            )
        }),
{
    lemma_kinds_differ();
    reveal_strlit("error");
    reveal_strlit("content_block_start");
    reveal_strlit("content_block_delta");
    assert("error"@.len() == 5 && "content_block_start"@.len() == 19 && "content_block_delta"@.len() == 19);
}

/// Events of other kinds, such as a sign of life, change nothing; so does a block of an
/// unknown kind, but that it takes its place, and a piece for it or of an unknown kind. An
/// event that names no block is about the first.
pub proof fn law_unknown_parts_change_nothing(s: StreamView, evt: JsonView, i: int)
    ensures
        evt.get_u64("index"@) is None ==> event_index(evt) == 0,
        ({
            let kind = evt.get_str("type"@);
            kind != Some("message_start"@) && kind != Some("content_block_start"@) && kind != Some("content_block_delta"@)
                && kind != Some("message_delta"@) ==> advanced(s, evt) == s
        }),
        ({
            let kind = or_null(evt.get("content_block"@)).get_str("type"@);
            is_event(evt, "content_block_start"@, i) && 0 <= i && kind != Some("text"@) && kind != Some("tool_use"@)
                && kind != Some("thinking"@) ==> advanced(s, evt).blocks[i] is Other
        }),
        ({
            let kind = or_null(evt.get("delta"@)).get_str("type"@);
            is_event(evt, "content_block_delta"@, i) && 0 <= i < s.blocks.len() && (s.blocks[i] is Other || (kind != Some(
                "text_delta"@,
            ) && kind != Some("input_json_delta"@) && kind != Some("thinking_delta"@) && kind != Some(
                "signature_delta"@,
            ))) ==> advanced(s, evt).blocks[i] == s.blocks[i]
        }),
        is_event(evt, "content_block_delta"@, i) && i >= s.blocks.len() ==> advanced(s, evt).blocks[i] is Other
            && advanced(s, evt).blocks.len() == i + 1,
{
    lemma_kinds_differ();
    reveal_strlit("message_start");
    reveal_strlit("content_block_start");
    reveal_strlit("content_block_delta");
    reveal_strlit("message_delta");
    reveal_strlit("text");
    reveal_strlit("tool_use");
    reveal_strlit("thinking");
    reveal_strlit("text_delta");
    reveal_strlit("input_json_delta");
    reveal_strlit("thinking_delta");
    reveal_strlit("signature_delta");
    assert("message_start"@.len() == 13 && "content_block_start"@.len() == 19 && "content_block_delta"@.len() == 19);
    assert("message_delta"@.len() == 13 && "text"@.len() == 4 && "tool_use"@.len() == 8 && "thinking"@.len() == 8);
    assert("text_delta"@.len() == 10 && "input_json_delta"@.len() == 16);
    assert("thinking_delta"@.len() == 14 && "signature_delta"@.len() == 15);
}

} // verus!
