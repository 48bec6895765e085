//! Task files: a conversation to begin with, and the commands that it may need.
use vstd::prelude::*;

use crate::json::{list_view, Json, JsonView};
use crate::model::anthropic::{message, message_value};
use crate::numbers::{decimal, decimal_text};
use crate::ordered::NameSet;
use crate::path_text::{extension, extension_of};
use crate::text::{begins, chars_of, find_at, lemma_find_from, occurs_at, same, starts_with, strip_prefix, text_of, trim_start, trim_start_of};
use crate::toml_doc::{parse_toml, toml_list_view, toml_parse, Toml, TomlView};

verus! {

/// A message of the conversation.
pub struct ChatMessage {
    pub role: String,
    pub content: String,
}

/// What a task file says beside the conversation.
pub struct ChatTemplateMeta {
    /// Commands that may be run beside the usual ones.
    pub bash_allow: NameSet,
}

/// What a message says.
pub struct MessageView {
    pub role: Seq<char>,
    pub content: Seq<char>,
}

/// What a task file says.
pub struct TemplateView {
    pub messages: Seq<MessageView>,
    pub bash_allow: Set<Seq<char>>,
}

impl ChatMessage {
    /// What the message says.
    pub open spec fn view(&self) -> MessageView {
        MessageView { role: self.role@, content: self.content@ }
    }
}

/// What a list of messages says.
pub open spec fn messages_view(v: Seq<ChatMessage>) -> Seq<MessageView> {
    v.map_values(|m: ChatMessage| m@)
}

/// Adding a message to a list adds what it says.
proof fn lemma_messages_push(v: Seq<ChatMessage>, m: ChatMessage)
    ensures
        messages_view(v.push(m)) == messages_view(v).push(m@),
{
    assert(messages_view(v.push(m)) =~= messages_view(v).push(m@));
}

// ---------------------------------------------------------------------------
// Commands
// ---------------------------------------------------------------------------

/// The character may stand in the name of a command.
pub open spec fn is_name_char(c: char) -> bool {
    'a' <= c <= 'z' || 'A' <= c <= 'Z' || '0' <= c <= '9' || c == '_' || c == '.' || c == '+' || c == '-'
}

/// The text is the bare name of a command.
pub open spec fn is_command_name(s: Seq<char>) -> bool {
    s.len() > 0 && forall|i: int| 0 <= i < s.len() ==> is_name_char(#[trigger] s[i])
}

/// Whether the text is the bare name of a command.
pub fn is_valid_bash_tool_name(s: &str) -> (r: bool)
    ensures
        r == is_command_name(s@),
{
    let v = chars_of(s);
    for i in 0..v.len()
        invariant
            v@ == s@,
            forall|k: int| 0 <= k < i ==> is_name_char(#[trigger] s@[k]),
    {
        let c = v[i];
        if !(('a' <= c && c <= 'z') || ('A' <= c && c <= 'Z') || ('0' <= c && c <= '9') || c == '_' || c == '.' || c
            == '+' || c == '-') {
            assert(!is_name_char(s@[i as int]));
            return false;
        }
    }
    v.len() > 0
}

/// What is said of a list of commands that is none.
pub open spec fn not_a_list(path: Seq<char>) -> Seq<char> {
    "[tools].bash must be a list of strings in "@ + path
}

/// The first thing that is wrong with a list of commands, if anything is.
pub open spec fn names_fault(path: Seq<char>, items: Seq<TomlView>) -> Option<Seq<char>>
    decreases items.len(),
{
    if items.len() == 0 {
        None
    } else {
        match names_fault(path, items.drop_last()) {
            Some(f) => Some(f),
            None => match items.last().as_str() {
                None => Some(not_a_list(path)),
                Some(name) => if is_command_name(name) {
                    None
                } else {
                    Some(
                        "Invalid bash tool name '"@ + name + "' in "@ + path
                            + ". Use a bare command name only (e.g. 'python3.8'), no args or paths."@,
                    )
                },
            },
        }
    }
}

/// The texts of a list.
pub open spec fn names_of(items: Seq<TomlView>) -> Set<Seq<char>>
    decreases items.len(),
{
    if items.len() == 0 {
        Set::empty()
    } else {
        match items.last().as_str() {
            Some(name) => names_of(items.drop_last()).insert(name),
            None => names_of(items.drop_last()),
        }
    }
}

/// The commands that a task file allows, or what is wrong with them.
pub open spec fn allowed_of(path: Seq<char>, data: TomlView) -> Result<Set<Seq<char>>, Seq<char>> {
    match data.get("tools"@) {
        None => Ok(Set::empty()),
        Some(tools) => if !(tools is Table) {
            Err("[tools] must be a table in "@ + path)
        } else {
            match tools.get("bash"@) {
                None => Ok(Set::empty()),
                Some(bash) => match bash.as_array() {
                    None => Err(not_a_list(path)),
                    Some(items) => match names_fault(path, items) {
                        Some(f) => Err(f),
                        None => Ok(names_of(items)),
                    },
                },
            }
        },
    }
}

/// What is said of a list of commands that is none.
fn not_a_list_text(path: &str) -> (r: String)
    ensures
        r@ == not_a_list(path@),
{
    let mut out = String::from_str("[tools].bash must be a list of strings in ");
    out.append(path);
    out
}

/// The texts of a list of commands, or what is wrong with them.
fn read_names(path: &str, items: &Vec<Toml>) -> (r: Result<NameSet, String>)
    ensures
        match r {
            Ok(names) => names_fault(path@, toml_list_view(items@)) is None && names.wf() && names@ == names_of(
                toml_list_view(items@),
            ),
            Err(e) => names_fault(path@, toml_list_view(items@)) == Some(e@),
        },
{
    let ghost all = toml_list_view(items@);
    let mut names = NameSet::new();
    assert(all.take(0) =~= Seq::empty());
    for i in 0..items.len()
        invariant
            all == toml_list_view(items@),
            names.wf(),
            names@ == names_of(all.take(i as int)),
            names_fault(path@, all.take(i as int)) is None,
    {
        proof {
            assert(all.take(i + 1).drop_last() =~= all.take(i as int));
            assert(all.take(i + 1).last() == items@[i as int]@);
        }
        match items[i].as_str() {
            None => {
                let e = not_a_list_text(path);
                proof { lemma_names_fault_stays(path@, all, i + 1, e@); }
                return Err(e);
            },
            Some(name) => {
                if !is_valid_bash_tool_name(name) {
                    let mut out = String::from_str("Invalid bash tool name '");
                    out.append(name);
                    out.append("' in ");
                    out.append(path);
                    out.append(". Use a bare command name only (e.g. 'python3.8'), no args or paths.");
                    proof { lemma_names_fault_stays(path@, all, i + 1, out@); }
                    return Err(out);
                }
                names.insert(String::from_str(name));
            },
        }
    }
    assert(all.take(items@.len() as int) =~= all);
    Ok(names)
}

/// The first fault of a list stays the first whatever follows.
proof fn lemma_names_fault_stays(path: Seq<char>, items: Seq<TomlView>, n: int, f: Seq<char>)
    requires
        0 <= n <= items.len(),
        names_fault(path, items.take(n)) == Some(f),
    ensures
        names_fault(path, items) == Some(f),
    decreases items.len() - n,
{
    if n < items.len() {
        assert(items.take(n + 1).drop_last() =~= items.take(n));
        lemma_names_fault_stays(path, items, n + 1, f);
    } else {
        assert(items.take(n) =~= items);
    }
}

/// The commands that a task file allows, or what is wrong with them.
fn read_allowed(path: &str, data: &Toml) -> (r: Result<NameSet, String>)
    ensures
        match r {
            Ok(names) => (allowed_of(path@, data@) matches Ok(w) && names.wf() && names@ == w),
            Err(e) => (allowed_of(path@, data@) matches Err(w) && w == e@),
        },
{
    match data.get("tools") {
        None => Ok(NameSet::new()),
        Some(tools) => {
            if !tools.is_table() {
                let mut out = String::from_str("[tools] must be a table in ");
                out.append(path);
                return Err(out);
            }
            match tools.get("bash") {
                None => Ok(NameSet::new()),
                Some(bash) => match bash.as_array() {
                    None => Err(not_a_list_text(path)),
                    Some(items) => read_names(path, items),
                },
            }
        },
    }
}

// ---------------------------------------------------------------------------
// Quotes
// ---------------------------------------------------------------------------

/// A text between triple double quotes is given here: an equals sign, then three
/// quotes, with white space before either.
pub open spec fn opens_quotes(rest: Seq<char>) -> bool {
    let w = trim_start_of(rest);
    begins(w, "="@) && begins(trim_start_of(w.skip(1)), "\"\"\""@)
}

/// A content is given between triple double quotes somewhere in the text.
pub open spec fn has_bad_quotes(raw: Seq<char>) -> bool {
    exists|i: int| #[trigger] occurs_at(raw, "content"@, i) && opens_quotes(raw.skip(i + 7))
}

/// Whether a text between triple double quotes is given here.
fn finds_quotes(rest: &str) -> (r: bool)
    ensures
        r == opens_quotes(rest@),
{
    let w = trim_start(rest);
    proof { reveal_strlit("="); }
    match strip_prefix(w, "=") {
        Some(after) => starts_with(trim_start(after), "\"\"\""),
        None => false,
    }
}

/// Whether a content is given between triple double quotes somewhere in the text.
pub fn has_bad_triple_double_quote_content(raw_text: &str) -> (r: bool)
    ensures
        r == has_bad_quotes(raw_text@),
{
    let v = chars_of(raw_text);
    let word = chars_of("content");
    proof { reveal_strlit("content"); }
    let n = v.len();
    let mut from: usize = 0;
    loop
        invariant
            from <= n == v@.len(),
            v@ == raw_text@,
            word@ == "content"@,
            word@.len() == 7,
            forall|i: int|
                0 <= i < from && #[trigger] occurs_at(raw_text@, "content"@, i) ==> !opens_quotes(raw_text@.skip(i + 7)),
        decreases n - from,
    {
        proof { lemma_find_from(v@, word@, from as int); }
        match find_at(&v, &word, from) {
            None => {
                proof {
                    assert forall|i: int| #[trigger] occurs_at(raw_text@, "content"@, i) implies !opens_quotes(
                        raw_text@.skip(i + 7),
                    ) by {
                        assert(0 <= i);
                    }
                }
                return false;
            },
            Some(k) => {
                let rest = text_of(&v, k + 7, n);
                assert(rest@ =~= raw_text@.skip(k + 7));
                assert(occurs_at(raw_text@, "content"@, k as int));
                if finds_quotes(rest.as_str()) {
                    return true;
                }
                from = k + 1;
            },
        }
    }
}

// ---------------------------------------------------------------------------
// Messages in order
// ---------------------------------------------------------------------------

/// Who speaks.
#[derive(Clone, Copy, PartialEq, Eq, Structural)]
pub enum Role {
    User,
    Assistant,
}

/// Who speaks, in a word.
pub open spec fn role_word(role: Role) -> Seq<char> {
    match role {
        Role::User => "user"@,
        Role::Assistant => "assistant"@,
    }
}

/// Who speaks, in a word.
fn role_text(role: Role) -> (r: &'static str)
    ensures
        r@ == role_word(role),
{
    match role {
        Role::User => "user",
        Role::Assistant => "assistant",
    }
}

/// Where in a TOML text a character stands.
#[derive(Clone, Copy, PartialEq, Eq, Structural)]
pub enum Place {
    /// Outside of comments and strings.
    Open,
    /// In a comment.
    Comment,
    /// In a string of one line that the quote ends.
    Line(char),
    /// In a string of any lines that three of the quote end.
    Block(char),
}

/// The same quote three times.
pub open spec fn is_triple(raw: Seq<char>, i: int, quote: char) -> bool {
    0 <= i && i + 2 < raw.len() && raw[i] == quote && raw[i + 1] == quote && raw[i + 2] == quote
}

/// The place of a string that begins here, and how many characters begin it.
pub open spec fn string_opening(raw: Seq<char>, i: int, quote: char) -> (int, Place) {
    if is_triple(raw, i, quote) {
        (3, Place::Block(quote))
    } else {
        (1, Place::Line(quote))
    }
}

/// How many quotes end a string of any lines here: up to two before the last three
/// still belong to it.
pub open spec fn block_closing(raw: Seq<char>, i: int, quote: char) -> int {
    if is_triple(raw, i + 2, quote) {
        5
    } else if is_triple(raw, i + 1, quote) {
        4
    } else {
        3
    }
}

/// How many characters belong together from the `i`th on, and the place of what
/// follows them. Only between double quotes does a backslash take the next character
/// with it.
pub open spec fn advance(raw: Seq<char>, i: int, place: Place) -> (int, Place) {
    let c = raw[i];
    match place {
        Place::Open => if c == '"' || c == '\'' {
            string_opening(raw, i, c)
        } else if c == '#' {
            (1, Place::Comment)
        } else {
            (1, Place::Open)
        },
        Place::Comment => (1, if c == '\n' { Place::Open } else { Place::Comment }),
        Place::Line(quote) => if c == '\\' && quote == '"' {
            (2, place)
        } else if c == quote || c == '\n' {
            (1, Place::Open)
        } else {
            (1, place)
        },
        Place::Block(quote) => if c == '\\' && quote == '"' {
            (2, place)
        } else if is_triple(raw, i, quote) {
            (block_closing(raw, i, quote), Place::Open)
        } else {
            (1, place)
        },
    }
}

/// Nothing stands before the `i`th character on its line, but for blanks.
pub open spec fn begins_line(raw: Seq<char>, i: int) -> bool
    decreases i,
{
    i <= 0 || raw[i - 1] == '\n' || (is_blank(raw[i - 1]) && begins_line(raw, i - 1))
}

/// The character may stand before a header: a space, a tab, or the mark at the
/// beginning of a text.
pub open spec fn is_blank(c: char) -> bool {
    c == ' ' || c == '\t' || c == '\u{feff}'
}

/// The role whose header begins here, where one does: on a line of its own, outside
/// of comments and strings.
pub open spec fn header_at(raw: Seq<char>, i: int, place: Place) -> Option<Role> {
    if place != Place::Open || !begins_line(raw, i) {
        None
    } else if occurs_at(raw, "[[chat.user]]"@, i) {
        Some(Role::User)
    } else if occurs_at(raw, "[[chat.assistant]]"@, i) {
        Some(Role::Assistant)
    } else {
        None
    }
}

/// The roles whose headers begin at the `i`th character or behind it, in order.
pub open spec fn roles_from(raw: Seq<char>, i: int, place: Place) -> Seq<Role>
    decreases if i < raw.len() { raw.len() - i } else { 0 },
{
    if i < 0 || i >= raw.len() {
        Seq::empty()
    } else {
        let (count, next) = advance(raw, i, place);
        let rest = roles_from(raw, i + count, next);
        match header_at(raw, i, place) {
            Some(role) => seq![role] + rest,
            None => rest,
        }
    }
}

/// The roles whose headers stand in the text, in order.
pub open spec fn roles_of(raw: Seq<char>) -> Seq<Role> {
    roles_from(raw, 0, Place::Open)
}

/// Whether the same quote stands here three times.
fn finds_triple(v: &Vec<char>, i: usize, quote: char) -> (r: bool)
    ensures
        r == is_triple(v@, i as int, quote),
        r ==> i + 2 <= usize::MAX,
{
    let n = v.len();
    n >= 3 && i <= n - 3 && v[i] == quote && v[i + 1] == quote && v[i + 2] == quote
}

/// How many characters belong together from the `i`th on, and the place of what
/// follows them.
fn next_place(v: &Vec<char>, i: usize, place: Place) -> (r: (usize, Place))
    requires
        i < v@.len(),
    ensures
        (r.0 as int, r.1) == advance(v@, i as int, place),
        1 <= r.0 <= 5,
{
    let c = v[i];
    match place {
        Place::Open => if c == '"' || c == '\'' {
            if finds_triple(v, i, c) {
                (3, Place::Block(c))
            } else {
                (1, Place::Line(c))
            }
        } else if c == '#' {
            (1, Place::Comment)
        } else {
            (1, Place::Open)
        },
        Place::Comment => (1, if c == '\n' { Place::Open } else { Place::Comment }),
        Place::Line(quote) => if c == '\\' && quote == '"' {
            (2, place)
        } else if c == quote || c == '\n' {
            (1, Place::Open)
        } else {
            (1, place)
        },
        Place::Block(quote) => if c == '\\' && quote == '"' {
            (2, place)
        } else if finds_triple(v, i, quote) {
            if finds_triple(v, i + 2, quote) {
                (5, Place::Open)
            } else if finds_triple(v, i + 1, quote) {
                (4, Place::Open)
            } else {
                (3, Place::Open)
            }
        } else {
            (1, place)
        },
    }
}

/// Whether nothing stands before the `i`th character on its line, but for blanks.
fn stands_first(v: &Vec<char>, i: usize) -> (r: bool)
    requires
        i <= v@.len(),
    ensures
        r == begins_line(v@, i as int),
{
    let mut k = i;
    while k > 0 && (v[k - 1] == ' ' || v[k - 1] == '\t' || v[k - 1] == '\u{feff}')
        invariant
            k <= i <= v@.len(),
            begins_line(v@, i as int) == begins_line(v@, k as int),
        decreases k,
    {
        k = k - 1;
    }
    k == 0 || v[k - 1] == '\n'
}

/// The roles whose headers stand in the text, in order.
pub fn declared_roles(raw_text: &str) -> (r: Vec<Role>)
    ensures
        r@ == roles_of(raw_text@),
{
    let v = chars_of(raw_text);
    let user = chars_of("[[chat.user]]");
    let assistant = chars_of("[[chat.assistant]]");
    let n = v.len();
    let mut out: Vec<Role> = Vec::new();
    let mut i: usize = 0;
    let mut place = Place::Open;
    assert(out@ + roles_of(raw_text@) =~= roles_of(raw_text@));
    while i < n
        invariant
            n == v@.len(),
            v@ == raw_text@,
            user@ == "[[chat.user]]"@,
            assistant@ == "[[chat.assistant]]"@,
            roles_of(raw_text@) == out@ + roles_from(raw_text@, i as int, place),
        decreases n - i,
    {
        let ghost before = out@;
        let ghost at = roles_from(raw_text@, i as int, place);
        let (count, next) = next_place(&v, i, place);
        let ghost rest = roles_from(raw_text@, i + count, next);
        if place == Place::Open && stands_first(&v, i) {
            if crate::text::matches_at(&v, &user, i) {
                out.push(Role::User);
            } else if crate::text::matches_at(&v, &assistant, i) {
                out.push(Role::Assistant);
            }
        }
        assert(before + at =~= out@ + rest);
        place = next;
        if count >= n - i {
            assert(rest =~= Seq::empty());
            assert(out@ + rest =~= out@);
            return out;
        }
        i = i + count;
    }
    assert(out@ + roles_from(raw_text@, i as int, place) =~= out@);
    out
}

/// How often a role stands in a list.
pub open spec fn role_count(roles: Seq<Role>, role: Role) -> nat
    decreases roles.len(),
{
    if roles.len() == 0 {
        0
    } else {
        role_count(roles.drop_last(), role) + (if roles.last() == role {
            1nat
        } else {
            0nat
        })
    }
}

/// What the next header of a role stands for, or what is wrong with it.
pub open spec fn declared_message(path: Seq<char>, chat: TomlView, role: Role, index: nat) -> Result<MessageView, Seq<char>> {
    let word = role_word(role);
    match chat.get(word) {
        Some(TomlView::Array(entries)) => if index >= entries.len() {
            Err("More [[chat."@ + word + "]] headers than parsed entries for "@ + word + " in "@ + path)
        } else {
            match entries[index as int].get_str("content"@) {
                Some(content) => Ok(MessageView { role: word, content }),
                None => Err("[[chat."@ + word + "]] entry missing 'content' in "@ + path),
            }
        },
        _ => Err("[[chat."@ + word + "]] section declared but not found in "@ + path),
    }
}

/// What the headers of a list stand for, or the first thing that is wrong with them.
pub open spec fn declared_messages(path: Seq<char>, chat: TomlView, roles: Seq<Role>) -> Result<
    Seq<MessageView>,
    Seq<char>,
>
    decreases roles.len(),
{
    if roles.len() == 0 {
        Ok(Seq::empty())
    } else {
        let front = roles.drop_last();
        match declared_messages(path, chat, front) {
            Err(e) => Err(e),
            Ok(before) => match declared_message(path, chat, roles.last(), role_count(front, roles.last())) {
                Err(e) => Err(e),
                Ok(m) => Ok(before.push(m)),
            },
        }
    }
}

/// What an entry of a list of messages says, or what is wrong with it.
pub open spec fn listed_message(path: Seq<char>, entry: TomlView) -> Result<MessageView, Seq<char>> {
    match (entry.get_str("role"@), entry.get_str("content"@)) {
        (Some(role), Some(content)) => if role == "user"@ || role == "assistant"@ {
            Ok(MessageView { role, content })
        } else {
            Err("Invalid role '"@ + role + "' in "@ + path)
        },
        _ => Err("Invalid [[chat]] entry in "@ + path),
    }
}

/// What a list of messages says, or the first thing that is wrong with it.
pub open spec fn listed_messages(path: Seq<char>, entries: Seq<TomlView>) -> Result<Seq<MessageView>, Seq<char>>
    decreases entries.len(),
{
    if entries.len() == 0 {
        Ok(Seq::empty())
    } else {
        match listed_messages(path, entries.drop_last()) {
            Err(e) => Err(e),
            Ok(before) => match listed_message(path, entries.last()) {
                Err(e) => Err(e),
                Ok(m) => Ok(before.push(m)),
            },
        }
    }
}

/// The first position, from `i` on, of a message whose role is that of the one
/// before it.
pub open spec fn first_repeat(messages: Seq<MessageView>, i: int) -> Option<int>
    decreases messages.len() - i,
{
    if i < 1 || i >= messages.len() {
        None
    } else if messages[i].role == messages[i - 1].role {
        Some(i)
    } else {
        first_repeat(messages, i + 1)
    }
}

/// What is wrong with the order of a conversation, if anything is.
pub open spec fn order_fault(messages: Seq<MessageView>) -> Option<Seq<char>> {
    if messages.len() == 0 {
        Some("Chat template is empty."@)
    } else if messages[0].role != "user"@ {
        Some("Conversation must start with a 'user' message."@)
    } else if messages.last().role == "assistant"@ {
        Some("Conversation must end with a 'user' message."@)
    } else {
        match first_repeat(messages, 1) {
            Some(i) => Some(
                "Invalid role order at positions "@ + decimal(i as nat) + " and "@ + decimal((i + 1) as nat)
                    + ": two consecutive '"@ + messages[i].role + "' entries found."@,
            ),
            None => None,
        }
    }
}

/// The conversation of a task file, or what is wrong with it.
pub open spec fn chat_of(path: Seq<char>, raw: Seq<char>, data: TomlView) -> Result<Seq<MessageView>, Seq<char>> {
    match data.get("chat"@) {
        None => Err("'chat' key not found in TOML file: "@ + path),
        Some(TomlView::Array(entries)) => listed_messages(path, entries),
        Some(TomlView::Table(e)) => declared_messages(path, TomlView::Table(e), roles_of(raw)),
        Some(_) => Err("Unexpected 'chat' structure in "@ + path),
    }
}

/// What a task file says, given its parsed document, or what is wrong with it.
pub open spec fn template_of(path: Seq<char>, raw: Seq<char>, data: TomlView) -> Result<TemplateView, Seq<char>> {
    match allowed_of(path, data) {
        Err(e) => Err(e),
        Ok(bash_allow) => if has_bad_quotes(raw) {
            Err(
                "Invalid TOML quoting in "@ + path
                    + ": Use triple single quotes ('''...''') for multi-line content blocks instead of triple double quotes (\"\"\"...\"\"\")."@,
            )
        } else {
            match chat_of(path, raw, data) {
                Err(e) => Err(e),
                Ok(messages) => match order_fault(messages) {
                    Some(f) => Err(f),
                    None => Ok(TemplateView { messages, bash_allow }),
                },
            }
        },
    }
}

/// What is wrong with the name of a task file, if anything is.
pub open spec fn name_fault(path: Seq<char>) -> Option<Seq<char>> {
    if extension_of(path) == Some("toml"@) {
        None
    } else {
        Some(
            "Unsupported file extension '"@ + (match extension_of(path) {
                Some(e) => e,
                None => ""@,
            }) + "'. Expected '.toml'."@,
        )
    }
}

/// What a task file says, given what came of reading it, or what is wrong with it.
pub open spec fn loaded(path: Seq<char>, read: Result<Seq<char>, Seq<char>>) -> Result<TemplateView, Seq<char>> {
    match name_fault(path) {
        Some(f) => Err(f),
        None => match read {
            Err(e) => Err("failed to read task file "@ + path + ": "@ + e),
            Ok(raw) => match toml_parse(raw) {
                Err(e) => Err("failed to parse TOML in "@ + path + ": "@ + e),
                Ok(data) => template_of(path, raw, data),
            },
        },
    }
}

/// What the next header of a role stands for, or what is wrong with it.
fn read_declared(path: &str, chat: &Toml, role: Role, index: usize) -> (r: Result<ChatMessage, String>)
    ensures
        match r {
            Ok(m) => (declared_message(path@, chat@, role, index as nat) matches Ok(w) && w == m@),
            Err(e) => (declared_message(path@, chat@, role, index as nat) matches Err(w) && w == e@),
        },
{
    let word = role_text(role);
    let entries = match chat.get(word) {
        Some(v) => v.as_array(),
        None => None,
    };
    match entries {
        Some(entries) => {
            assert(toml_list_view(entries@).len() == entries@.len());
            if index >= entries.len() {
                let mut out = String::from_str("More [[chat.");
                out.append(word);
                out.append("]] headers than parsed entries for ");
                out.append(word);
                out.append(" in ");
                out.append(path);
                return Err(out);
            }
            assert(toml_list_view(entries@)[index as int] == entries@[index as int]@);
            match entries[index].get_str("content") {
                Some(content) => Ok(
                    ChatMessage { role: String::from_str(word), content: String::from_str(content) },
                ),
                None => {
                    let mut out = String::from_str("[[chat.");
                    out.append(word);
                    out.append("]] entry missing 'content' in ");
                    out.append(path);
                    Err(out)
                },
            }
        },
        None => {
            let mut out = String::from_str("[[chat.");
            out.append(word);
            out.append("]] section declared but not found in ");
            out.append(path);
            Err(out)
        },
    }
}

/// What the headers of a list stand for, or the first thing that is wrong with them.
fn read_all_declared(path: &str, chat: &Toml, roles: &Vec<Role>) -> (r: Result<Vec<ChatMessage>, String>)
    ensures
        match r {
            Ok(m) => (declared_messages(path@, chat@, roles@) matches Ok(w) && w == messages_view(m@)),
            Err(e) => (declared_messages(path@, chat@, roles@) matches Err(w) && w == e@),
        },
{
    let mut out: Vec<ChatMessage> = Vec::new();
    let mut users: usize = 0;
    let mut assistants: usize = 0;
    let n = roles.len();
    assert(roles@.take(0) =~= Seq::empty());
    assert(messages_view(out@) =~= Seq::empty());
    for i in 0..n
        invariant
            n == roles@.len(),
            users == role_count(roles@.take(i as int), Role::User),
            assistants == role_count(roles@.take(i as int), Role::Assistant),
            users + assistants == i,
            declared_messages(path@, chat@, roles@.take(i as int)) matches Ok(w) && w == messages_view(out@),
    {
        let role = roles[i];
        proof {
            assert(roles@.take(i + 1).drop_last() =~= roles@.take(i as int));
            assert(roles@.take(i + 1).last() == role);
        }
        let index = match role {
            Role::User => users,
            Role::Assistant => assistants,
        };
        match read_declared(path, chat, role, index) {
            Ok(m) => {
                proof { lemma_messages_push(out@, m); }
                out.push(m);
            },
            Err(e) => {
                proof { lemma_declared_fault_stays(path@, chat@, roles@, i + 1, e@); }
                return Err(e);
            },
        }
        match role {
            Role::User => {
                users = users + 1;
            },
            Role::Assistant => {
                assistants = assistants + 1;
            },
        }
    }
    assert(roles@.take(n as int) =~= roles@);
    Ok(out)
}

proof fn lemma_declared_fault_stays(path: Seq<char>, chat: TomlView, roles: Seq<Role>, n: int, f: Seq<char>)
    requires
        0 <= n <= roles.len(),
        declared_messages(path, chat, roles.take(n)) matches Err(e) && e == f,
    ensures
        declared_messages(path, chat, roles) matches Err(e) && e == f,
    decreases roles.len() - n,
{
    if n < roles.len() {
        assert(roles.take(n + 1).drop_last() =~= roles.take(n));
        lemma_declared_fault_stays(path, chat, roles, n + 1, f);
    } else {
        assert(roles.take(n) =~= roles);
    }
}

/// What an entry of a list of messages says, or what is wrong with it.
fn read_listed(path: &str, entry: &Toml) -> (r: Result<ChatMessage, String>)
    ensures
        match r {
            Ok(m) => (listed_message(path@, entry@) matches Ok(w) && w == m@),
            Err(e) => (listed_message(path@, entry@) matches Err(w) && w == e@),
        },
{
    match (entry.get_str("role"), entry.get_str("content")) {
        (Some(role), Some(content)) => {
            if same(role, "user") || same(role, "assistant") {
                Ok(ChatMessage { role: String::from_str(role), content: String::from_str(content) })
            } else {
                let mut out = String::from_str("Invalid role '");
                out.append(role);
                out.append("' in ");
                out.append(path);
                Err(out)
            }
        },
        _ => {
            let mut out = String::from_str("Invalid [[chat]] entry in ");
            out.append(path);
            Err(out)
        },
    }
}

/// What a list of messages says, or the first thing that is wrong with it.
fn read_all_listed(path: &str, entries: &Vec<Toml>) -> (r: Result<Vec<ChatMessage>, String>)
    ensures
        match r {
            Ok(m) => (listed_messages(path@, toml_list_view(entries@)) matches Ok(w) && w == messages_view(m@)),
            Err(e) => (listed_messages(path@, toml_list_view(entries@)) matches Err(w) && w == e@),
        },
{
    let ghost all = toml_list_view(entries@);
    let mut out: Vec<ChatMessage> = Vec::new();
    assert(all.take(0) =~= Seq::empty());
    assert(messages_view(out@) =~= Seq::empty());
    for i in 0..entries.len()
        invariant
            all == toml_list_view(entries@),
            listed_messages(path@, all.take(i as int)) matches Ok(w) && w == messages_view(out@),
    {
        proof {
            assert(all.take(i + 1).drop_last() =~= all.take(i as int));
            assert(all.take(i + 1).last() == entries@[i as int]@);
        }
        match read_listed(path, &entries[i]) {
            Ok(m) => {
                proof { lemma_messages_push(out@, m); }
                out.push(m);
            },
            Err(e) => {
                proof { lemma_listed_fault_stays(path@, all, i + 1, e@); }
                return Err(e);
            },
        }
    }
    assert(all.take(entries@.len() as int) =~= all);
    Ok(out)
}

proof fn lemma_listed_fault_stays(path: Seq<char>, entries: Seq<TomlView>, n: int, f: Seq<char>)
    requires
        0 <= n <= entries.len(),
        listed_messages(path, entries.take(n)) matches Err(e) && e == f,
    ensures
        listed_messages(path, entries) matches Err(e) && e == f,
    decreases entries.len() - n,
{
    if n < entries.len() {
        assert(entries.take(n + 1).drop_last() =~= entries.take(n));
        lemma_listed_fault_stays(path, entries, n + 1, f);
    } else {
        assert(entries.take(n) =~= entries);
    }
}

/// What is wrong with the order of a conversation, if anything is.
fn check_order(messages: &Vec<ChatMessage>) -> (r: Option<String>)
    ensures
        match r {
            Some(e) => order_fault(messages_view(messages@)) == Some(e@),
            None => order_fault(messages_view(messages@)) is None,
        },
{
    let ghost all = messages_view(messages@);
    let n = messages.len();
    assert(all.len() == n);
    if n == 0 {
        return Some(String::from_str("Chat template is empty."));
    }
    assert(all[0] == messages@[0]@);
    if !same(messages[0].role.as_str(), "user") {
        return Some(String::from_str("Conversation must start with a 'user' message."));
    }
    assert(all.last() == messages@[n - 1]@);
    if same(messages[n - 1].role.as_str(), "assistant") {
        return Some(String::from_str("Conversation must end with a 'user' message."));
    }
    for i in 1..n
        invariant
            1 <= i <= n == messages@.len(),
            all == messages_view(messages@),
            first_repeat(all, 1) == first_repeat(all, i as int),
            order_fault(all) == (match first_repeat(all, 1) {
                Some(i) => Some(
                    "Invalid role order at positions "@ + decimal(i as nat) + " and "@ + decimal((i + 1) as nat)
                        + ": two consecutive '"@ + all[i].role + "' entries found."@,
                ),
                None => None,
            }),
    {
        assert(all[i as int] == messages@[i as int]@);
        assert(all[i - 1] == messages@[i - 1]@);
        if same(messages[i].role.as_str(), messages[i - 1].role.as_str()) {
            let mut out = String::from_str("Invalid role order at positions ");
            out.append(decimal_text(i as u64).as_str());
            out.append(" and ");
            out.append(decimal_text(i as u64 + 1).as_str());
            out.append(": two consecutive '");
            out.append(messages[i].role.as_str());
            out.append("' entries found.");
            return Some(out);
        }
    }
    None
}

/// The conversation of a task file, or what is wrong with it.
fn read_chat(path: &str, raw: &str, data: &Toml) -> (r: Result<Vec<ChatMessage>, String>)
    ensures
        match r {
            Ok(m) => (chat_of(path@, raw@, data@) matches Ok(w) && w == messages_view(m@)),
            Err(e) => (chat_of(path@, raw@, data@) matches Err(w) && w == e@),
        },
{
    match data.get("chat") {
        None => {
            let mut out = String::from_str("'chat' key not found in TOML file: ");
            out.append(path);
            Err(out)
        },
        Some(chat) => match chat.as_array() {
            Some(entries) => read_all_listed(path, entries),
            None => if chat.is_table() {
                read_all_declared(path, chat, &declared_roles(raw))
            } else {
                let mut out = String::from_str("Unexpected 'chat' structure in ");
                out.append(path);
                Err(out)
            },
        },
    }
}

/// What a task file says, given its parsed document, or what is wrong with it.
pub fn read_template(path: &str, raw: &str, data: &Toml) -> (r: Result<(Vec<ChatMessage>, ChatTemplateMeta), String>)
    ensures
        match r {
            Ok(t) => {
                &&& template_of(path@, raw@, data@) matches Ok(w)
                &&& w.messages == messages_view(t.0@)
                &&& w.bash_allow == t.1.bash_allow@
                &&& t.1.bash_allow.wf()
            },
            Err(e) => (template_of(path@, raw@, data@) matches Err(w) && w == e@),
        },
{
    let bash_allow = match read_allowed(path, data) {
        Ok(names) => names,
        Err(e) => {
            return Err(e);
        },
    };
    if has_bad_triple_double_quote_content(raw) {
        let mut out = String::from_str("Invalid TOML quoting in ");
        out.append(path);
        out.append(
            ": Use triple single quotes ('''...''') for multi-line content blocks instead of triple double quotes (\"\"\"...\"\"\").",
        );
        return Err(out);
    }
    match read_chat(path, raw, data) {
        Err(e) => Err(e),
        Ok(messages) => match check_order(&messages) {
            Some(f) => Err(f),
            None => Ok((messages, ChatTemplateMeta { bash_allow })),
        },
    }
}

/// What a task file says, given what came of reading it, or what is wrong with it.
pub fn load_chat_template(path: &str, read: &Result<String, String>) -> (r: Result<
    (Vec<ChatMessage>, ChatTemplateMeta),
    String,
>)
    ensures
        ({
            let outcome = loaded(
                path@,
                (match *read {
                    Ok(s) => Ok(s@),
                    Err(e) => Err(e@),
                }),
            );
            match r {
                Ok(t) => {
                    &&& outcome matches Ok(w)
                    &&& w.messages == messages_view(t.0@)
                    &&& w.bash_allow == t.1.bash_allow@
                    &&& t.1.bash_allow.wf()
                },
                Err(e) => outcome matches Err(w) && w == e@,
            }
        }),
{
    let ext = extension(path);
    let known = match &ext {
        Some(e) => same(e.as_str(), "toml"),
        None => false,
    };
    if !known {
        let mut out = String::from_str("Unsupported file extension '");
        match &ext {
            Some(e) => {
                out.append(e.as_str());
            },
            None => {
                out.append("");
            },
        }
        out.append("'. Expected '.toml'.");
        return Err(out);
    }
    match read {
        Err(e) => {
            let mut out = String::from_str("failed to read task file ");
            out.append(path);
            out.append(": ");
            out.append(e.as_str());
            Err(out)
        },
        Ok(raw) => match parse_toml(raw.as_str()) {
            Err(e) => {
                let mut out = String::from_str("failed to parse TOML in ");
                out.append(path);
                out.append(": ");
                out.append(e.as_str());
                Err(out)
            },
            Ok(data) => read_template(path, raw.as_str(), &data),
        },
    }
}

/// The messages of a conversation, as they are handed to a model.
pub fn messages_to_json(messages: &Vec<ChatMessage>) -> (r: Vec<Json>)
    ensures
        list_view(r@) == messages_view(messages@).map_values(
            |m: MessageView| message(m.role, JsonView::Str(m.content)),
        ),
{
    let mut out: Vec<Json> = Vec::new();
    for i in 0..messages.len()
        invariant
            out@.len() == i,
            forall|k: int|
                0 <= k < i ==> (#[trigger] out@[k])@ == message(messages@[k].role@, JsonView::Str(messages@[k].content@)),
    {
        out.push(message_value(messages[i].role.as_str(), Json::Str(messages[i].content.clone())));
    }
    assert(list_view(out@) =~= messages_view(messages@).map_values(
        |m: MessageView| message(m.role, JsonView::Str(m.content)),
    ));
    out
}

// ---------------------------------------------------------------------------
// Laws
// ---------------------------------------------------------------------------

/// The character neither begins a string or a comment nor ends a line.
pub open spec fn is_inner(c: char) -> bool {
    c != '"' && c != '\'' && c != '#' && c != '\n'
}

/// A header, as it is written.
pub open spec fn header_of(role: Role) -> Seq<char> {
    match role {
        Role::User => "[[chat.user]]"@,
        Role::Assistant => "[[chat.assistant]]"@,
    }
}

/// What stands behind a whole line is read as if nothing stood before it.
proof fn lemma_lines_are_read_alone(a: Seq<char>, b: Seq<char>, i: int, place: Place)
    requires
        a.len() > 0,
        a.last() == '\n',
        0 <= i,
    ensures
        roles_from(a + b, a.len() + i, place) == roles_from(b, i, place),
    decreases b.len() - i + 6,
{
    let raw = a + b;
    let n = a.len() as int;
    if i < b.len() {
        lemma_line_begins_alone(a, b, i);
        assert forall|k: int| 0 <= k < b.len() implies #[trigger] raw[n + k] == b[k] by {}
        assert forall|k: int, q: char| 0 <= k implies #[trigger] is_triple(b, k, q) == is_triple(raw, n + k, q) by {
            if k + 2 < b.len() {
                assert(raw[n + k] == b[k] && raw[n + (k + 1)] == b[k + 1] && raw[n + (k + 2)] == b[k + 2]);
            }
        }
        assert(raw[n + i] == b[i]);
        assert(is_triple(b, i + 1, '"') == is_triple(raw, n + (i + 1), '"'));
        assert(is_triple(b, i + 1, '\'') == is_triple(raw, n + (i + 1), '\''));
        assert(is_triple(b, i + 2, '"') == is_triple(raw, n + (i + 2), '"'));
        assert(is_triple(b, i + 2, '\'') == is_triple(raw, n + (i + 2), '\''));
        match place {
            Place::Block(q) => {
                assert(is_triple(b, i + 1, q) == is_triple(raw, n + (i + 1), q));
                assert(is_triple(b, i + 2, q) == is_triple(raw, n + (i + 2), q));
            },
            _ => {},
        }
        let (count, next) = advance(b, i, place);
        assert(advance(raw, n + i, place) == (count, next));
        lemma_occurs_alone(a, b, "[[chat.user]]"@, i);
        lemma_occurs_alone(a, b, "[[chat.assistant]]"@, i);
        lemma_lines_are_read_alone(a, b, i + count, next);
    }
}

proof fn lemma_line_begins_alone(a: Seq<char>, b: Seq<char>, i: int)
    requires
        a.len() > 0,
        a.last() == '\n',
        0 <= i <= b.len(),
    ensures
        begins_line(a + b, a.len() + i) == begins_line(b, i),
    decreases i,
{
    if i > 0 {
        assert((a + b)[a.len() + i - 1] == b[i - 1]);
        lemma_line_begins_alone(a, b, i - 1);
    } else {
        assert((a + b)[a.len() - 1] == a.last());
    }
}

proof fn lemma_occurs_alone(a: Seq<char>, b: Seq<char>, p: Seq<char>, i: int)
    requires
        0 <= i,
    ensures
        occurs_at(a + b, p, a.len() + i) == occurs_at(b, p, i),
{
    if i + p.len() <= b.len() {
        assert((a + b).subrange(a.len() + i, a.len() + i + p.len()) =~= b.subrange(i, i + p.len()));
    }
}

/// Nothing begins in the middle of a line, outside of strings and comments.
proof fn lemma_inner_declares_nothing(raw: Seq<char>, i: int, n: int)
    requires
        1 <= i <= n <= raw.len(),
        forall|k: int| i <= k < n ==> is_inner(#[trigger] raw[k]),
        !begins_line(raw, i),
    ensures
        roles_from(raw, i, Place::Open) == roles_from(raw, n, Place::Open),
    decreases n - i,
{
    if i < n {
        assert(is_inner(raw[i]));
        lemma_inner_declares_nothing(raw, i + 1, n);
    }
}

/// The end of a line declares nothing.
proof fn lemma_end_declares_nothing(raw: Seq<char>, i: int)
    requires
        0 <= i < raw.len(),
        raw[i] == '\n',
    ensures
        roles_from(raw, i, Place::Open) == roles_from(raw, i + 1, Place::Open),
        roles_from(raw, i, Place::Comment) == roles_from(raw, i + 1, Place::Open),
{
    reveal_strlit("[[chat.user]]");
    reveal_strlit("[[chat.assistant]]");
    if occurs_at(raw, "[[chat.user]]"@, i) {
        assert(raw.subrange(i, i + "[[chat.user]]"@.len())[0] == '[');
    }
    if occurs_at(raw, "[[chat.assistant]]"@, i) {
        assert(raw.subrange(i, i + "[[chat.assistant]]"@.len())[0] == '[');
    }
}

proof fn lemma_comment_goes_on(raw: Seq<char>, i: int, n: int)
    requires
        0 <= i <= n < raw.len(),
        forall|k: int| i <= k < n ==> #[trigger] raw[k] != '\n',
        raw[n] == '\n',
    ensures
        roles_from(raw, i, Place::Comment) == roles_from(raw, n + 1, Place::Open),
    decreases n - i,
{
    if i < n {
        lemma_comment_goes_on(raw, i + 1, n);
    } else {
        lemma_end_declares_nothing(raw, n);
    }
}

proof fn lemma_block_goes_on(raw: Seq<char>, i: int, n: int)
    requires
        0 <= i <= n,
        n + 3 < raw.len(),
        forall|k: int| i <= k < n ==> !#[trigger] is_triple(raw, k, '\''),
        is_triple(raw, n, '\''),
        raw[n + 3] == '\n',
    ensures
        roles_from(raw, i, Place::Block('\'')) == roles_from(raw, n + 3, Place::Open),
    decreases n - i,
{
    if i < n {
        assert(!is_triple(raw, i, '\''));
        lemma_block_goes_on(raw, i + 1, n);
    } else {
        assert(!is_triple(raw, n + 1, '\''));
        assert(!is_triple(raw, n + 2, '\''));
    }
}

/// A header on a line of its own declares its role, before those of the lines behind.
pub proof fn law_header_declares_role(role: Role, rest: Seq<char>)
    ensures
        roles_of(header_of(role) + "\n"@ + rest) == seq![role] + roles_of(rest),
{
    reveal_strlit("[[chat.user]]");
    reveal_strlit("[[chat.assistant]]");
    reveal_strlit("\n");
    let header = header_of(role);
    let line = header + "\n"@;
    let raw = line + rest;
    let n = header.len() as int;
    assert(raw.subrange(0, n) =~= header);
    assert(header[0] == '[');
    assert(raw[0] == '[');
    if role == Role::Assistant && occurs_at(raw, "[[chat.user]]"@, 0) {
        assert(raw.subrange(0, 13)[7] == 'u');
        assert(raw[7] == header[7]);
    }
    assert(header_at(raw, 0, Place::Open) == Some(role));
    assert forall|k: int| 0 <= k < n implies is_inner(#[trigger] raw[k]) by {
        assert(raw[k] == header[k]);
    }
    assert(!begins_line(raw, 1));
    lemma_inner_declares_nothing(raw, 1, n);
    assert(raw[n] == '\n');
    lemma_end_declares_nothing(raw, n);
    assert(line.last() == '\n');
    lemma_lines_are_read_alone(line, rest, 0, Place::Open);
}

/// A comment declares nothing, whatever it says.
pub proof fn law_comment_declares_nothing(comment: Seq<char>, rest: Seq<char>)
    requires
        !comment.contains('\n'),
    ensures
        roles_of("#"@ + comment + "\n"@ + rest) == roles_of(rest),
{
    reveal_strlit("#");
    reveal_strlit("\n");
    reveal_strlit("[[chat.user]]");
    reveal_strlit("[[chat.assistant]]");
    let line = "#"@ + comment + "\n"@;
    let raw = line + rest;
    let n = 1 + comment.len() as int;
    assert(raw[0] == '#');
    if occurs_at(raw, "[[chat.user]]"@, 0) {
        assert(raw.subrange(0, 13)[0] == '[');
    }
    if occurs_at(raw, "[[chat.assistant]]"@, 0) {
        assert(raw.subrange(0, 18)[0] == '[');
    }
    assert forall|k: int| 1 <= k < n implies #[trigger] raw[k] != '\n' by {
        assert(raw[k] == comment[k - 1]);
    }
    assert(raw[n] == '\n');
    lemma_comment_goes_on(raw, 1, n);
    assert(line.last() == '\n');
    lemma_lines_are_read_alone(line, rest, 0, Place::Open);
}

/// A text between triple single quotes declares nothing, whatever it says, but for the
/// quotes that would end it.
pub proof fn law_string_declares_nothing(lead: Seq<char>, body: Seq<char>, rest: Seq<char>)
    requires
        lead.len() > 0,
        lead[0] != '[' && !is_blank(lead[0]),
        forall|k: int| 0 <= k < lead.len() ==> is_inner(#[trigger] lead[k]),
        forall|k: int| 0 <= k < body.len() ==> !#[trigger] is_triple(body + "\'\'\'"@, k, '\''),
    ensures
        roles_of(lead + "\'\'\'"@ + body + "\'\'\'\n"@ + rest) == roles_of(rest),
{
    reveal_strlit("\'\'\'");
    reveal_strlit("\'\'\'\n");
    reveal_strlit("[[chat.user]]");
    reveal_strlit("[[chat.assistant]]");
    let line = lead + "\'\'\'"@ + body + "\'\'\'\n"@;
    let raw = line + rest;
    let a = lead.len() as int;
    let n = a + 3 + body.len();
    assert(raw[0] == lead[0]);
    if occurs_at(raw, "[[chat.user]]"@, 0) {
        assert(raw.subrange(0, 13)[0] == '[');
    }
    if occurs_at(raw, "[[chat.assistant]]"@, 0) {
        assert(raw.subrange(0, 18)[0] == '[');
    }
    assert forall|k: int| 0 <= k < a implies is_inner(#[trigger] raw[k]) by {
        assert(raw[k] == lead[k]);
    }
    assert(is_inner(raw[0]));
    assert(!begins_line(raw, 1));
    lemma_inner_declares_nothing(raw, 1, a);
    assert(raw[a] == '\'' && raw[a + 1] == '\'' && raw[a + 2] == '\'');
    lemma_not_at_line_start(raw, a);
    assert(is_triple(raw, a, '\''));
    assert forall|k: int| a + 3 <= k < n implies !#[trigger] is_triple(raw, k, '\'') by {
        let j = k - a - 3;
        let closed = body + "\'\'\'"@;
        assert(!is_triple(closed, j, '\''));
        assert(raw[k] == closed[j] && raw[k + 1] == closed[j + 1] && raw[k + 2] == closed[j + 2]);
    }
    assert(is_triple(raw, n, '\''));
    assert(raw[n + 3] == '\n');
    lemma_block_goes_on(raw, a + 3, n);
    lemma_end_declares_nothing(raw, n + 3);
    assert(line.len() == n + 4);
    assert(line.last() == '\n');
    lemma_lines_are_read_alone(line, rest, 0, Place::Open);
}

/// A place behind the first character of a text does not begin its line, where that
/// character is no blank and the line has not ended.
proof fn lemma_not_at_line_start(raw: Seq<char>, i: int)
    requires
        1 <= i <= raw.len(),
        !is_blank(raw[0]),
        forall|k: int| 0 <= k < i ==> #[trigger] raw[k] != '\n',
    ensures
        !begins_line(raw, i),
    decreases i,
{
    assert(raw[i - 1] != '\n');
    if i > 1 {
        lemma_not_at_line_start(raw, i - 1);
    }
}

/// Every message of an accepted task file is one of the user or of the assistant.
pub proof fn law_accepted_roles(path: Seq<char>, raw: Seq<char>, data: TomlView, i: int)
    requires
        template_of(path, raw, data) is Ok,
        0 <= i < template_of(path, raw, data)->Ok_0.messages.len(),
    ensures
        ({
            let role = template_of(path, raw, data)->Ok_0.messages[i].role;
            role == "user"@ || role == "assistant"@
        }),
{
    match data.get("chat"@) {
        Some(TomlView::Array(entries)) => {
            lemma_listed_roles(path, entries, i);
        },
        Some(TomlView::Table(e)) => {
            lemma_declared_roles(path, TomlView::Table(e), roles_of(raw), i);
        },
        _ => {},
    }
}

proof fn lemma_listed_roles(path: Seq<char>, entries: Seq<TomlView>, i: int)
    requires
        listed_messages(path, entries) is Ok,
        0 <= i < listed_messages(path, entries)->Ok_0.len(),
    ensures
        ({
            let role = listed_messages(path, entries)->Ok_0[i].role;
            role == "user"@ || role == "assistant"@
        }),
    decreases entries.len(),
{
    if entries.len() > 0 {
        let before = listed_messages(path, entries.drop_last())->Ok_0;
        if i < before.len() {
            lemma_listed_roles(path, entries.drop_last(), i);
        }
    }
}

proof fn lemma_declared_roles(path: Seq<char>, chat: TomlView, roles: Seq<Role>, i: int)
    requires
        declared_messages(path, chat, roles) is Ok,
        0 <= i < declared_messages(path, chat, roles)->Ok_0.len(),
    ensures
        ({
            let role = declared_messages(path, chat, roles)->Ok_0[i].role;
            role == "user"@ || role == "assistant"@
        }),
    decreases roles.len(),
{
    if roles.len() > 0 {
        let before = declared_messages(path, chat, roles.drop_last())->Ok_0;
        if i < before.len() {
            lemma_declared_roles(path, chat, roles.drop_last(), i);
        }
    }
}

/// The messages of an accepted task file take turns: the user begins, the assistant
/// replies, and the user has the last word.
pub proof fn law_accepted_conversation_alternates(path: Seq<char>, raw: Seq<char>, data: TomlView, i: int)
    requires
        template_of(path, raw, data) is Ok,
        0 <= i < template_of(path, raw, data)->Ok_0.messages.len(),
    ensures
        ({
            let m = template_of(path, raw, data)->Ok_0.messages;
            &&& m[i].role == (if i % 2 == 0 {
                "user"@
            } else {
                "assistant"@
            })
            &&& m.len() % 2 == 1
        }),
{
    let m = template_of(path, raw, data)->Ok_0.messages;
    lemma_turns(path, raw, data, i);
    lemma_turns(path, raw, data, m.len() - 1);
    reveal_strlit("user");
    reveal_strlit("assistant");
    assert("user"@.len() == 4 && "assistant"@.len() == 9);
}

proof fn lemma_turns(path: Seq<char>, raw: Seq<char>, data: TomlView, i: int)
    requires
        template_of(path, raw, data) is Ok,
        0 <= i < template_of(path, raw, data)->Ok_0.messages.len(),
    ensures
        template_of(path, raw, data)->Ok_0.messages[i].role == (if i % 2 == 0 {
            "user"@
        } else {
            "assistant"@
        }),
    decreases i,
{
    let m = template_of(path, raw, data)->Ok_0.messages;
    if i > 0 {
        lemma_turns(path, raw, data, i - 1);
        law_accepted_roles(path, raw, data, i);
        lemma_no_repeat(m, 1, i);
    }
}

proof fn lemma_no_repeat(messages: Seq<MessageView>, from: int, i: int)
    requires
        first_repeat(messages, from) is None,
        1 <= from <= i < messages.len(),
    ensures
        messages[i].role != messages[i - 1].role,
    decreases i - from,
{
    if from < i {
        lemma_no_repeat(messages, from + 1, i);
    }
}

/// Every command that an accepted task file adds is a bare name: no arguments, no
/// path.
pub proof fn law_added_commands_are_bare_names(path: Seq<char>, data: TomlView, name: Seq<char>)
    requires
        allowed_of(path, data) is Ok,
        allowed_of(path, data)->Ok_0.contains(name),
    ensures
        is_command_name(name),
{
    let items = data.get("tools"@)->Some_0.get("bash"@)->Some_0.as_array()->Some_0;
    lemma_names_are_bare(path, items, name);
}

proof fn lemma_names_are_bare(path: Seq<char>, items: Seq<TomlView>, name: Seq<char>)
    requires
        names_fault(path, items) is None,
        names_of(items).contains(name),
    ensures
        is_command_name(name),
    decreases items.len(),
{
    if items.len() > 0 {
        if items.last().as_str() != Some(name) {
            lemma_names_are_bare(path, items.drop_last(), name);
        }
    }
}

/// A list of commands is accepted exactly where all of its items are bare names: letters,
/// digits, underscores, dots, plus and minus signs, one at least. Then each item is
/// allowed, and nothing else is.
pub proof fn law_listed_commands_are_allowed(path: Seq<char>, items: Seq<TomlView>, name: Seq<char>)
    ensures
        names_fault(path, items) is None <==> forall|i: int|
            0 <= i < items.len() ==> ((#[trigger] items[i]).as_str() matches Some(n) && n.len() > 0 && forall|k: int|
                0 <= k < n.len() ==> {
                    let c = #[trigger] n[k];
                    'a' <= c <= 'z' || 'A' <= c <= 'Z' || '0' <= c <= '9' || c == '_' || c == '.' || c == '+' || c == '-'
                }),
        names_of(items).contains(name) <==> exists|i: int|
            0 <= i < items.len() && (#[trigger] items[i]).as_str() == Some(name),
    decreases items.len(),
{
    if items.len() > 0 {
        let front = items.drop_last();
        let n = items.len() - 1;
        law_listed_commands_are_allowed(path, front, name);
        if names_fault(path, items) is None {
            assert forall|i: int| 0 <= i < items.len() implies ((#[trigger] items[i]).as_str() matches Some(m) && m.len()
                > 0 && forall|k: int|
                0 <= k < m.len() ==> {
                    let c = #[trigger] m[k];
                    'a' <= c <= 'z' || 'A' <= c <= 'Z' || '0' <= c <= '9' || c == '_' || c == '.' || c == '+' || c == '-'
                }) by {
                if i < n {
                    assert(items[i] == front[i]);
                } else {
                    assert(items[i] == items.last());
                    let m = items.last().as_str()->0;
                    assert forall|k: int| 0 <= k < m.len() implies {
                        let c = #[trigger] m[k];
                        'a' <= c <= 'z' || 'A' <= c <= 'Z' || '0' <= c <= '9' || c == '_' || c == '.' || c == '+' || c
                            == '-'
                    } by {
                        assert(is_name_char(m[k]));
                    }
                }
            }
        }
        if names_fault(path, front) is Some {
            let i = choose|i: int|
                0 <= i < front.len() && !((#[trigger] front[i]).as_str() matches Some(m) && m.len() > 0 && forall|k: int|
                    0 <= k < m.len() ==> {
                        let c = #[trigger] m[k];
                        'a' <= c <= 'z' || 'A' <= c <= 'Z' || '0' <= c <= '9' || c == '_' || c == '.' || c == '+' || c
                            == '-'
                    });
            assert(items[i] == front[i]);
        } else {
            assert(items[n] == items.last());
        }
        if names_of(front).contains(name) {
            let i = choose|i: int| 0 <= i < front.len() && (#[trigger] front[i]).as_str() == Some(name);
            assert(items[i] == front[i]);
        }
        if items.last().as_str() == Some(name) {
            assert(items[n].as_str() == Some(name));
        }
        if exists|i: int| 0 <= i < items.len() && (#[trigger] items[i]).as_str() == Some(name) {
            let i = choose|i: int| 0 <= i < items.len() && (#[trigger] items[i]).as_str() == Some(name);
            if i < n {
                assert(front[i] == items[i]);
            }
        }
    }
}

/// What is told of a list of commands is told of the first item that is no bare name.
pub proof fn law_first_bad_command_is_told(path: Seq<char>, items: Seq<TomlView>, i: int)
    requires
        0 <= i < items.len(),
        names_fault(path, items.take(i)) is None,
    ensures
        items[i].as_str() is None ==> names_fault(path, items) == Some(
            "[tools].bash must be a list of strings in "@ + path,
        ),
        items[i].as_str() matches Some(n) && !is_command_name(n) ==> names_fault(path, items) == Some(
            "Invalid bash tool name '"@ + items[i].as_str()->0 + "' in "@ + path
                + ". Use a bare command name only (e.g. 'python3.8'), no args or paths."@,
        ),
{
    assert(items.take(i + 1).drop_last() =~= items.take(i));
    assert(items.take(i + 1).last() == items[i]);
    match names_fault(path, items.take(i + 1)) {
        Some(f) => {
            lemma_names_fault_stays(path, items, i + 1, f);
        },
        None => {},
    }
}

/// A task file without a list of commands allows none beside the usual ones; what it
/// lists must be a list in a table.
pub proof fn law_commands_are_optional(path: Seq<char>, data: TomlView)
    ensures
        data.get("tools"@) is None ==> allowed_of(path, data) == Ok::<Set<Seq<char>>, Seq<char>>(Set::empty()),
        data.get("tools"@) matches Some(t) ==> {
            &&& !(t is Table) ==> allowed_of(path, data) is Err
            &&& t is Table && t.get("bash"@) is None ==> allowed_of(path, data) == Ok::<Set<Seq<char>>, Seq<char>>(
                Set::empty(),
            )
            &&& t is Table && (t.get("bash"@) matches Some(b) && !(b is Array)) ==> allowed_of(path, data) is Err
            &&& t is Table ==> (t.get("bash"@) matches Some(TomlView::Array(items)) ==> {
                &&& names_fault(path, items) is None ==> allowed_of(path, data) == Ok::<Set<Seq<char>>, Seq<char>>(
                    names_of(items),
                )
                &&& names_fault(path, items) matches Some(f) ==> allowed_of(path, data) == Err::<
                    Set<Seq<char>>,
                    Seq<char>,
                >(f)
            })
        },
{
}

/// Every entry of a list of messages is read, in order, with its role and its content; a
/// list is accepted exactly where each entry has both, and the role is one of the two.
pub proof fn law_every_listed_message_is_read(path: Seq<char>, entries: Seq<TomlView>)
    ensures
        listed_messages(path, entries) is Ok <==> forall|i: int|
            0 <= i < entries.len() ==> {
                &&& (#[trigger] entries[i]).get_str("content"@) is Some
                &&& entries[i].get_str("role"@) == Some("user"@) || entries[i].get_str("role"@) == Some("assistant"@)
            },
        listed_messages(path, entries) matches Ok(m) ==> {
            &&& m.len() == entries.len()
            &&& forall|i: int|
                0 <= i < m.len() ==> (#[trigger] m[i]).role == entries[i].get_str("role"@)->0 && m[i].content
                    == entries[i].get_str("content"@)->0
        },
    decreases entries.len(),
{
    if entries.len() > 0 {
        let front = entries.drop_last();
        let n = entries.len() - 1;
        law_every_listed_message_is_read(path, front);
        assert(entries[n] == entries.last());
        if listed_messages(path, entries) is Ok {
            assert forall|i: int| 0 <= i < entries.len() implies {
                &&& (#[trigger] entries[i]).get_str("content"@) is Some
                &&& entries[i].get_str("role"@) == Some("user"@) || entries[i].get_str("role"@) == Some("assistant"@)
            } by {
                if i < n {
                    assert(entries[i] == front[i]);
                }
            }
        }
        if listed_messages(path, front) is Err {
            let i = choose|i: int|
                0 <= i < front.len() && !({
                    &&& (#[trigger] front[i]).get_str("content"@) is Some
                    &&& front[i].get_str("role"@) == Some("user"@) || front[i].get_str("role"@) == Some("assistant"@)
                });
            assert(entries[i] == front[i]);
        }
    }
}

/// What is told of a list of messages is told of the first entry that cannot be read.
pub proof fn law_first_bad_message_is_told(path: Seq<char>, entries: Seq<TomlView>, i: int)
    requires
        0 <= i < entries.len(),
        listed_messages(path, entries.take(i)) is Ok,
    ensures
        entries[i].get_str("role"@) is None || entries[i].get_str("content"@) is None ==> listed_messages(path, entries)
            == Err::<Seq<MessageView>, Seq<char>>("Invalid [[chat]] entry in "@ + path),
        (entries[i].get_str("role"@) matches Some(role) && role != "user"@ && role != "assistant"@)
            && entries[i].get_str("content"@) is Some ==> listed_messages(path, entries) == Err::<
            Seq<MessageView>,
            Seq<char>,
        >("Invalid role '"@ + entries[i].get_str("role"@)->0 + "' in "@ + path),
{
    assert(entries.take(i + 1).drop_last() =~= entries.take(i));
    assert(entries.take(i + 1).last() == entries[i]);
    match listed_messages(path, entries.take(i + 1)) {
        Err(f) => {
            lemma_listed_fault_stays(path, entries, i + 1, f);
        },
        Ok(_) => {},
    }
}

/// Every header stands for a message, in order: the next entry of its role, by how often
/// the role was declared before. They are accepted exactly where there is such an entry
/// for each, with a content.
pub proof fn law_every_header_is_read(path: Seq<char>, chat: TomlView, roles: Seq<Role>)
    ensures
        declared_messages(path, chat, roles) is Ok <==> forall|i: int|
            0 <= i < roles.len() ==> has_entry(chat, #[trigger] roles[i], role_count(roles.take(i), roles[i])),
        declared_messages(path, chat, roles) matches Ok(m) ==> {
            &&& m.len() == roles.len()
            &&& forall|i: int|
                0 <= i < m.len() ==> (#[trigger] m[i]).role == role_word(roles[i]) && Some(m[i].content) == chat.get(
                    role_word(roles[i]),
                )->0->Array_0[role_count(roles.take(i), roles[i]) as int].get_str("content"@)
        },
    decreases roles.len(),
{
    if roles.len() > 0 {
        let front = roles.drop_last();
        let n = roles.len() - 1;
        law_every_header_is_read(path, chat, front);
        assert(roles[n] == roles.last());
        assert(roles.take(n) =~= front);
        assert forall|i: int| 0 <= i < n implies #[trigger] roles[i] == front[i] && roles.take(i) == front.take(i) by {
            assert(roles.take(i) =~= front.take(i));
        }
        if declared_messages(path, chat, roles) is Ok {
            assert forall|i: int| 0 <= i < roles.len() implies has_entry(
                chat,
                #[trigger] roles[i],
                role_count(roles.take(i), roles[i]),
            ) by {
                if i < n {
                    assert(roles[i] == front[i] && roles.take(i) == front.take(i));
                }
            }
            let m = declared_messages(path, chat, roles)->Ok_0;
            assert forall|i: int| 0 <= i < m.len() implies (#[trigger] m[i]).role == role_word(roles[i]) && Some(
                m[i].content,
            ) == chat.get(role_word(roles[i]))->0->Array_0[role_count(roles.take(i), roles[i]) as int].get_str(
                "content"@,
            ) by {
                if i < n {
                    assert(m[i] == declared_messages(path, chat, front)->Ok_0[i]);
                    assert(roles[i] == front[i] && roles.take(i) == front.take(i));
                }
            }
        }
        if declared_messages(path, chat, front) is Err {
            let i = choose|i: int|
                0 <= i < front.len() && !has_entry(chat, #[trigger] front[i], role_count(front.take(i), front[i]));
            assert(roles[i] == front[i] && roles.take(i) == front.take(i));
        }
    }
}

/// There is an entry for a header of the role, with a content.
pub open spec fn has_entry(chat: TomlView, role: Role, index: nat) -> bool {
    chat.get(role_word(role)) matches Some(TomlView::Array(entries)) && index < entries.len() && entries[index as int].get_str(
        "content"@,
    ) is Some
}

/// Each header counts for its own role, wherever it stands.
pub proof fn law_headers_are_counted(a: Seq<Role>, b: Seq<Role>, role: Role, other: Role)
    ensures
        role_count(a + b, role) == role_count(a, role) + role_count(b, role),
        role_count(seq![role], role) == 1,
        other != role ==> role_count(seq![other], role) == 0,
        role_count(Seq::empty(), role) == 0,
    decreases b.len(),
{
    assert(seq![role].drop_last() =~= Seq::empty());
    assert(seq![other].drop_last() =~= Seq::empty());
    assert(role_count(Seq::empty(), role) == 0);
    if b.len() == 0 {
        assert(a + b =~= a);
    } else {
        assert((a + b).drop_last() =~= a + b.drop_last());
        law_headers_are_counted(a, b.drop_last(), role, other);
    }
}

/// A conversation is accepted exactly where the user begins it, the assistant does not end
/// it, and nobody speaks twice in a row.
pub proof fn law_order_is_accepted_iff(messages: Seq<MessageView>)
    ensures
        order_fault(messages) is None <==> {
            &&& messages.len() > 0
            &&& messages[0].role == "user"@
            &&& messages.last().role != "assistant"@
            &&& forall|i: int| 1 <= i < messages.len() ==> (#[trigger] messages[i]).role != messages[i - 1].role
        },
{
    if first_repeat(messages, 1) is None {
        assert forall|i: int| 1 <= i < messages.len() implies (#[trigger] messages[i]).role != messages[i - 1].role by {
            lemma_no_repeat(messages, 1, i);
        }
    } else {
        lemma_repeat_is_one(messages, 1);
    }
}

/// The position that is found is that of a message whose role is that of the one before.
proof fn lemma_repeat_is_one(messages: Seq<MessageView>, from: int)
    requires
        first_repeat(messages, from) is Some,
    ensures
        ({
            let i = first_repeat(messages, from)->0;
            1 <= from <= i < messages.len() && messages[i].role == messages[i - 1].role
        }),
    decreases messages.len() - from,
{
    if messages[from].role != messages[from - 1].role {
        lemma_repeat_is_one(messages, from + 1);
    }
}

/// What is told of the order is told of the first two messages in a row of one role,
/// counted from one.
pub proof fn law_first_repeat_is_told(messages: Seq<MessageView>, i: int)
    requires
        1 <= i < messages.len(),
        messages[0].role == "user"@,
        messages.last().role != "assistant"@,
        messages[i].role == messages[i - 1].role,
        forall|k: int| 1 <= k < i ==> (#[trigger] messages[k]).role != messages[k - 1].role,
    ensures
        order_fault(messages) == Some(
            "Invalid role order at positions "@ + decimal(i as nat) + " and "@ + decimal((i + 1) as nat)
                + ": two consecutive '"@ + messages[i].role + "' entries found."@,
        ),
{
    lemma_repeat_at(messages, 1, i);
}

proof fn lemma_repeat_at(messages: Seq<MessageView>, from: int, i: int)
    requires
        1 <= from <= i < messages.len(),
        messages[i].role == messages[i - 1].role,
        forall|k: int| from <= k < i ==> (#[trigger] messages[k]).role != messages[k - 1].role,
    ensures
        first_repeat(messages, from) == Some(i),
    decreases i - from,
{
    if from < i {
        assert(messages[from].role != messages[from - 1].role);
        lemma_repeat_at(messages, from + 1, i);
    }
}

/// A task file is accepted exactly where its commands, its quotes, its messages and their
/// order are; then it says those messages and allows those commands.
pub proof fn law_template_is_accepted_iff(path: Seq<char>, raw: Seq<char>, data: TomlView)
    ensures
        template_of(path, raw, data) is Ok <==> {
            &&& allowed_of(path, data) is Ok
            &&& !(exists|i: int| #[trigger] occurs_at(raw, "content"@, i) && opens_quotes(raw.skip(i + 7)))
            &&& chat_of(path, raw, data) is Ok
            &&& order_fault(chat_of(path, raw, data)->Ok_0) is None
        },
        template_of(path, raw, data) matches Ok(t) ==> t.messages == chat_of(path, raw, data)->Ok_0 && t.bash_allow
            == allowed_of(path, data)->Ok_0,
        data.get("chat"@) matches Some(TomlView::Array(entries)) ==> chat_of(path, raw, data) == listed_messages(
            path,
            entries,
        ),
        data.get("chat"@) matches Some(TomlView::Table(e)) ==> chat_of(path, raw, data) == declared_messages(
            path,
            TomlView::Table(e),
            roles_of(raw),
        ),
        !(data.get("chat"@) matches Some(c) && (c is Array || c is Table)) ==> chat_of(path, raw, data) is Err,
{
}

/// A task file is loaded exactly where it is named as one, could be read and parsed, and
/// is accepted.
pub proof fn law_file_is_loaded_iff(path: Seq<char>, read: Result<Seq<char>, Seq<char>>)
    ensures
        loaded(path, read) is Ok <==> extension_of(path) == Some("toml"@) && (read matches Ok(raw) && (toml_parse(
            raw,
        ) matches Ok(data) && template_of(path, raw, data) is Ok)),
        extension_of(path) == Some("toml"@) ==> (read matches Ok(raw) ==> (toml_parse(raw) matches Ok(data) ==> loaded(
            path,
            read,
        ) == template_of(path, raw, data))),
        extension_of(path) == Some("toml"@) ==> (read matches Err(e) ==> loaded(path, read) == Err::<
            TemplateView,
            Seq<char>,
        >("failed to read task file "@ + path + ": "@ + e)),
{
}

/// A header at the very end of a text declares its role, and so does one behind blanks.
pub proof fn law_header_may_be_indented(blanks: Seq<char>, role: Role, rest: Seq<char>)
    requires
        forall|k: int| 0 <= k < blanks.len() ==> is_blank(#[trigger] blanks[k]),
    ensures
        roles_of(header_of(role)) == seq![role],
        roles_of(blanks + header_of(role) + "\n"@ + rest) == seq![role] + roles_of(rest),
{
    reveal_strlit("[[chat.user]]");
    reveal_strlit("[[chat.assistant]]");
    reveal_strlit("\n");
    let header = header_of(role);
    let n = header.len() as int;
    assert(header.subrange(0, n) =~= header);
    lemma_header_stands(header, role, 0);
    lemma_inner_declares_nothing(header, 1, n);
    assert(roles_from(header, n, Place::Open) =~= Seq::empty());
    let line = blanks + header + "\n"@;
    let raw = line + rest;
    let b = blanks.len() as int;
    assert forall|k: int| 0 <= k < b implies is_blank(#[trigger] raw[k]) by {
        assert(raw[k] == blanks[k]);
    }
    lemma_blanks_declare_nothing(raw, 0, b);
    lemma_line_begins_behind_blanks(raw, b);
    assert(raw.subrange(b, b + n) =~= header);
    assert forall|k: int| 0 <= k < n implies #[trigger] raw[b + k] == header[k] by {}
    lemma_header_stands(raw, role, b);
    assert forall|k: int| b <= k < b + n implies is_inner(#[trigger] raw[k]) by {
        assert(raw[b + (k - b)] == header[k - b]);
    }
    assert(raw[b] == '[') by {
        assert(raw[b + 0] == header[0]);
    }
    assert(!begins_line(raw, b + 1));
    lemma_inner_declares_nothing(raw, b + 1, b + n);
    assert(raw[b + n] == '\n');
    lemma_end_declares_nothing(raw, b + n);
    assert(line.last() == '\n');
    lemma_lines_are_read_alone(line, rest, 0, Place::Open);
}

/// A header that begins its line is known as one, and leads on by one character.
proof fn lemma_header_stands(raw: Seq<char>, role: Role, i: int)
    requires
        0 <= i,
        i + header_of(role).len() <= raw.len(),
        raw.subrange(i, i + header_of(role).len()) == header_of(role),
        begins_line(raw, i),
    ensures
        roles_from(raw, i, Place::Open) == seq![role] + roles_from(raw, i + 1, Place::Open),
        header_of(role).len() > 1,
        forall|k: int| 0 <= k < header_of(role).len() ==> is_inner(#[trigger] header_of(role)[k]),
        raw[i] == '[',
        !begins_line(raw, i + 1),
{
    reveal_strlit("[[chat.user]]");
    reveal_strlit("[[chat.assistant]]");
    let header = header_of(role);
    let n = header.len() as int;
    assert(raw.subrange(i, i + n)[0] == header[0]);
    assert(raw.subrange(i, i + n)[7] == header[7]);
    assert(raw[i] == '[');
    if role == Role::Assistant && occurs_at(raw, "[[chat.user]]"@, i) {
        assert(raw.subrange(i, i + 13)[7] == 'u');
    }
    assert(header_at(raw, i, Place::Open) == Some(role));
}

/// Blanks at the beginning of a text declare nothing.
proof fn lemma_blanks_declare_nothing(raw: Seq<char>, i: int, n: int)
    requires
        0 <= i <= n <= raw.len(),
        forall|k: int| 0 <= k < n ==> is_blank(#[trigger] raw[k]),
    ensures
        roles_from(raw, i, Place::Open) == roles_from(raw, n, Place::Open),
    decreases n - i,
{
    reveal_strlit("[[chat.user]]");
    reveal_strlit("[[chat.assistant]]");
    if i < n {
        assert(is_blank(raw[i]));
        if occurs_at(raw, "[[chat.user]]"@, i) {
            assert(raw.subrange(i, i + "[[chat.user]]"@.len())[0] == '[');
        }
        if occurs_at(raw, "[[chat.assistant]]"@, i) {
            assert(raw.subrange(i, i + "[[chat.assistant]]"@.len())[0] == '[');
        }
        lemma_blanks_declare_nothing(raw, i + 1, n);
    }
}

/// A line begins behind blanks.
proof fn lemma_line_begins_behind_blanks(raw: Seq<char>, n: int)
    requires
        0 <= n <= raw.len(),
        forall|k: int| 0 <= k < n ==> is_blank(#[trigger] raw[k]),
    ensures
        begins_line(raw, n),
    decreases n,
{
    if n > 0 {
        assert(is_blank(raw[n - 1]));
        lemma_line_begins_behind_blanks(raw, n - 1);
    }
}

/// A line that is no header and holds no string and no comment declares nothing.
pub proof fn law_plain_line_declares_nothing(line: Seq<char>, rest: Seq<char>)
    requires
        line.len() > 0 ==> line[0] != '[' && !is_blank(line[0]),
        forall|k: int| 0 <= k < line.len() ==> is_inner(#[trigger] line[k]),
    ensures
        roles_of(line + "\n"@ + rest) == roles_of(rest),
{
    reveal_strlit("\n");
    let whole = line + "\n"@;
    let raw = whole + rest;
    let n = line.len() as int;
    assert(raw[n] == '\n');
    if n > 0 {
        lemma_lead_declares_nothing(raw, line);
    }
    lemma_end_declares_nothing(raw, n);
    assert(whole.last() == '\n');
    lemma_lines_are_read_alone(whole, rest, 0, Place::Open);
}

/// The beginning of a line that is no header declares nothing.
proof fn lemma_lead_declares_nothing(raw: Seq<char>, lead: Seq<char>)
    requires
        0 < lead.len() <= raw.len(),
        forall|k: int| 0 <= k < lead.len() ==> #[trigger] raw[k] == lead[k],
        lead[0] != '[' && !is_blank(lead[0]),
        forall|k: int| 0 <= k < lead.len() ==> is_inner(#[trigger] lead[k]),
    ensures
        roles_from(raw, 0, Place::Open) == roles_from(raw, lead.len() as int, Place::Open),
        !begins_line(raw, lead.len() as int),
{
    reveal_strlit("[[chat.user]]");
    reveal_strlit("[[chat.assistant]]");
    let a = lead.len() as int;
    assert(raw[0] == lead[0]);
    assert(is_inner(lead[0]));
    if occurs_at(raw, "[[chat.user]]"@, 0) {
        assert(raw.subrange(0, 13)[0] == '[');
    }
    if occurs_at(raw, "[[chat.assistant]]"@, 0) {
        assert(raw.subrange(0, 18)[0] == '[');
    }
    assert forall|k: int| 0 <= k < a implies is_inner(#[trigger] raw[k]) by {
        assert(raw[k] == lead[k]);
        assert(is_inner(lead[k]));
    }
    assert(!begins_line(raw, 1));
    lemma_inner_declares_nothing(raw, 1, a);
    assert forall|k: int| 0 <= k < a implies #[trigger] raw[k] != '\n' by {
        assert(is_inner(raw[k]));
    }
    lemma_not_at_line_start(raw, a);
}

/// A string of one line goes on up to its quote.
proof fn lemma_string_goes_on(raw: Seq<char>, i: int, n: int, quote: char)
    requires
        0 <= i <= n < raw.len(),
        forall|k: int| i <= k < n ==> #[trigger] raw[k] != '\n' && raw[k] != quote && (quote == '\'' || raw[k] != '\\'),
        raw[n] == quote,
        quote == '"' || quote == '\'',
    ensures
        roles_from(raw, i, Place::Line(quote)) == roles_from(raw, n + 1, Place::Open),
    decreases n - i,
{
    if i < n {
        assert(raw[i] != quote);
        lemma_string_goes_on(raw, i + 1, n, quote);
    }
}

/// A string of one line declares nothing, whatever it says; only between double quotes
/// does a backslash keep it from ending.
pub proof fn law_short_string_declares_nothing(lead: Seq<char>, quote: char, body: Seq<char>, rest: Seq<char>)
    requires
        lead.len() > 0,
        lead[0] != '[' && !is_blank(lead[0]),
        forall|k: int| 0 <= k < lead.len() ==> is_inner(#[trigger] lead[k]),
        quote == '"' || quote == '\'',
        forall|k: int|
            0 <= k < body.len() ==> #[trigger] body[k] != '\n' && body[k] != quote && (quote == '\'' || body[k] != '\\'),
    ensures
        roles_of(lead + seq![quote] + body + seq![quote, '\n'] + rest) == roles_of(rest),
{
    let line = lead + seq![quote] + body + seq![quote, '\n'];
    let raw = line + rest;
    let a = lead.len() as int;
    let n = a + 1 + body.len();
    lemma_lead_declares_nothing(raw, lead);
    assert(raw[a] == quote);
    assert(raw[n] == quote && raw[n + 1] == '\n');
    assert(!is_triple(raw, a, quote)) by {
        if body.len() > 0 {
            assert(raw[a + 1] == body[0]);
        } else {
            assert(raw[a + 2] == '\n');
        }
    }
    assert forall|k: int| a + 1 <= k < n implies #[trigger] raw[k] != '\n' && raw[k] != quote && (quote == '\'' || raw[k]
        != '\\') by {
        assert(raw[k] == body[k - a - 1]);
    }
    assert(header_at(raw, a, Place::Open) is None);
    lemma_string_goes_on(raw, a + 1, n, quote);
    lemma_end_declares_nothing(raw, n + 1);
    assert(line.len() == n + 2);
    assert(line.last() == '\n');
    lemma_lines_are_read_alone(line, rest, 0, Place::Open);
}

/// A character behind a backslash does not end a string between double quotes.
pub proof fn law_escaped_quote_ends_nothing(
    lead: Seq<char>,
    a: Seq<char>,
    escaped: char,
    b: Seq<char>,
    rest: Seq<char>,
)
    requires
        lead.len() > 0,
        lead[0] != '[' && !is_blank(lead[0]),
        forall|k: int| 0 <= k < lead.len() ==> is_inner(#[trigger] lead[k]),
        forall|k: int| 0 <= k < a.len() ==> #[trigger] a[k] != '\n' && a[k] != '"' && a[k] != '\\',
        forall|k: int| 0 <= k < b.len() ==> #[trigger] b[k] != '\n' && b[k] != '"' && b[k] != '\\',
    ensures
        roles_of(lead + seq!['"'] + a + seq!['\\', escaped] + b + seq!['"', '\n'] + rest) == roles_of(rest),
{
    let line = lead + seq!['"'] + a + seq!['\\', escaped] + b + seq!['"', '\n'];
    let raw = line + rest;
    let p = lead.len() as int;
    let m = p + 1 + a.len();
    let n = m + 2 + b.len();
    lemma_lead_declares_nothing(raw, lead);
    assert(raw[p] == '"');
    assert(raw[m] == '\\' && raw[n] == '"' && raw[n + 1] == '\n');
    assert(!is_triple(raw, p, '"')) by {
        if a.len() > 0 {
            assert(raw[p + 1] == a[0]);
        }
    }
    assert forall|k: int| p + 1 <= k < m implies #[trigger] raw[k] != '\n' && raw[k] != '"' && raw[k] != '\\' by {
        assert(raw[k] == a[k - p - 1]);
    }
    assert forall|k: int| m + 2 <= k < n implies #[trigger] raw[k] != '\n' && raw[k] != '"' && raw[k] != '\\' by {
        assert(raw[k] == b[k - m - 2]);
    }
    assert(header_at(raw, p, Place::Open) is None);
    lemma_string_reaches(raw, p + 1, m);
    lemma_string_goes_on(raw, m + 2, n, '"');
    lemma_end_declares_nothing(raw, n + 1);
    assert(line.len() == n + 2);
    assert(line.last() == '\n');
    lemma_lines_are_read_alone(line, rest, 0, Place::Open);
}

/// A string of one line goes on up to a backslash.
proof fn lemma_string_reaches(raw: Seq<char>, i: int, n: int)
    requires
        0 <= i <= n < raw.len(),
        forall|k: int| i <= k < n ==> #[trigger] raw[k] != '\n' && raw[k] != '"' && raw[k] != '\\',
    ensures
        roles_from(raw, i, Place::Line('"')) == roles_from(raw, n, Place::Line('"')),
    decreases n - i,
{
    if i < n {
        assert(raw[i] != '"');
        lemma_string_reaches(raw, i + 1, n);
    }
}

} // verus!
