//! A chat completion on the slot engine: from the request's messages to a
//! prompt and a conversation identity, and from the engine's events to the
//! answer.

use crate::fingerprint::{fingerprint_bytes, fnv_fold, FNV_OFFSET};
use crate::json::{
    all_json_of, array_value, json_of, json_quoted, member, quote, read_string, read_u64, JsonView,
};
use crate::policy::DoneReason;
use crate::text::{join2, joined_texts, lemma_pieces_occur, occurs, same_text};
use serde_json::Value;
use vstd::prelude::*;
use vstd::string::StringExecFns;
use vstd::utf8::encode_utf8;

verus! {

/// Who speaks in a turn.
#[derive(Debug, Clone, Copy, PartialEq, Eq, Structural)]
pub enum Role {
    User,
    Assistant,
}

/// One message of a request: its role as given, if any, and its text.
#[derive(Debug, Clone)]
pub struct ChatMessage {
    pub role: Option<String>,
    pub text: String,
}

/// A message as a mathematical value.
pub struct MessageView {
    pub role: Option<Seq<char>>,
    pub text: Seq<char>,
}

impl View for ChatMessage {
    type V = MessageView;

    open spec fn view(&self) -> MessageView {
        MessageView {
            role: match self.role {
                Some(r) => Some(r@),
                None => None,
            },
            text: self.text@,
        }
    }
}

/// The messages as mathematical values.
pub open spec fn message_views(m: Seq<ChatMessage>) -> Seq<MessageView> {
    Seq::new(m.len(), |i: int| m[i]@)
}

/// A message is a system message.
pub open spec fn is_system(m: MessageView) -> bool {
    m.role == Some("system"@)
}

/// Speaker of a message that is no system message: the assistant, or else the
/// user, for a tool result reads as user-side context.
pub open spec fn speaker(m: MessageView) -> Role {
    if m.role == Some("assistant"@) {
        Role::Assistant
    } else {
        Role::User
    }
}

/// The system text: all system messages, one per line; `None` without any.
pub open spec fn system_text(m: Seq<MessageView>) -> Option<Seq<char>>
    decreases m.len(),
{
    if m.len() == 0 {
        None
    } else {
        let before = system_text(m.drop_last());
        if is_system(m.last()) {
            match before {
                Some(t) => Some(t + "\n"@ + m.last().text),
                None => Some(m.last().text),
            }
        } else {
            before
        }
    }
}

/// The turns: every message that is no system message, in order.
pub open spec fn chat_turns(m: Seq<MessageView>) -> Seq<(Role, Seq<char>)>
    decreases m.len(),
{
    if m.len() == 0 {
        Seq::empty()
    } else if is_system(m.last()) {
        chat_turns(m.drop_last())
    } else {
        chat_turns(m.drop_last()).push((speaker(m.last()), m.last().text))
    }
}

/// Turn `i` is the last of the user.
pub open spec fn last_user_turn(turns: Seq<(Role, Seq<char>)>, i: int) -> bool {
    &&& 0 <= i < turns.len()
    &&& turns[i].0 == Role::User
    &&& forall|j: int| i < j < turns.len() ==> (#[trigger] turns[j]).0 != Role::User
}

/// Identity of one user turn: FNV-1a over its bytes.
pub open spec fn turn_identity(text: Seq<char>) -> u64 {
    fnv_fold(FNV_OFFSET, encode_utf8(text))
}

/// Identity of a user turn.
pub fn turn_hash(s: &str) -> (r: u64)
    ensures
        r == turn_identity(s@),
{
    fingerprint_bytes(s.as_bytes())
}

/// Identities of the user turns.
pub open spec fn user_identities(turns: Seq<(Role, Seq<char>)>) -> Seq<u64>
    decreases turns.len(),
{
    if turns.len() == 0 {
        Seq::empty()
    } else if turns.last().0 == Role::User {
        user_identities(turns.drop_last()).push(turn_identity(turns.last().1))
    } else {
        user_identities(turns.drop_last())
    }
}

/// A turn.
#[derive(Debug, Clone)]
pub struct Turn {
    pub role: Role,
    pub text: String,
}

/// The turns as mathematical values.
pub open spec fn turn_views(t: Seq<Turn>) -> Seq<(Role, Seq<char>)> {
    Seq::new(t.len(), |i: int| (t[i].role, t[i].text@))
}

/// What a prompt is built of.
#[derive(Debug)]
pub struct ChatPrompt {
    pub system: Option<String>,
    /// The turns before the last user turn, in order. What comes after it is
    /// not part of the prompt.
    pub history: Vec<Turn>,
    /// The last user turn: the prompt.
    pub user: String,
    /// Identity of the conversation: its user turns, the prompt last. The
    /// assistant's side is not part of it, for a client may echo it changed.
    pub convo: Vec<u64>,
}

impl ChatPrompt {
    /// `self` is the prompt of the messages.
    pub open spec fn is_prompt_of(&self, m: Seq<MessageView>) -> bool {
        let turns = chat_turns(m);
        &&& match self.system {
            Some(s) => system_text(m) == Some(s@),
            None => system_text(m) is None,
        }
        &&& exists|i: int| #[trigger]
            last_user_turn(turns, i) && self.user@ == turns[i].1 && turn_views(self.history@)
                == turns.take(i)
        &&& self.convo@ == user_identities(turn_views(self.history@)).push(
            turn_identity(self.user@),
        )
    }

    /// Whether the conversation has an earlier turn that this one continues.
    pub fn continues(&self) -> (r: bool)
        ensures
            r == (self.convo@.len() >= 2),
    {
        self.convo.len() >= 2
    }
}

fn has_role(m: &ChatMessage, name: &str) -> (r: bool)
    ensures
        r == (m@.role == Some(name@)),
{
    match &m.role {
        Some(s) => same_text(s.as_str(), name),
        None => false,
    }
}

proof fn lemma_turn_views_push(t: Seq<Turn>, x: Turn)
    ensures
        turn_views(t.push(x)) == turn_views(t).push((x.role, x.text@)),
{
    assert(turn_views(t.push(x)) =~= turn_views(t).push((x.role, x.text@)));
}

/// Folds messages into a prompt. `None` when there is no user turn.
pub fn fold_messages(messages: &[ChatMessage]) -> (r: Option<ChatPrompt>)
    ensures
        match r {
            Some(p) => p.is_prompt_of(message_views(messages@)),
            None => forall|i: int|
                !#[trigger] last_user_turn(chat_turns(message_views(messages@)), i),
        },
{
    let ghost mv = message_views(messages@);
    let mut system: Option<String> = None;
    let mut turns: Vec<Turn> = Vec::new();
    let mut i: usize = 0;
    proof {
        assert(mv.take(0) =~= Seq::empty());
        assert(turn_views(turns@) =~= Seq::empty());
    }
    while i < messages.len()
        invariant
            i <= messages@.len(),
            mv == message_views(messages@),
            match system {
                Some(s) => system_text(mv.take(i as int)) == Some(s@),
                None => system_text(mv.take(i as int)) is None,
            },
            turn_views(turns@) == chat_turns(mv.take(i as int)),
        decreases messages@.len() - i,
    {
        let m = &messages[i];
        proof {
            assert(mv.take(i + 1).drop_last() =~= mv.take(i as int));
            assert(mv.take(i + 1).last() == m@);
        }
        if has_role(m, "system") {
            system = match system {
                Some(mut t) => {
                    t.append("\n");
                    t.append(m.text.as_str());
                    Some(t)
                },
                None => Some(m.text.clone()),
            };
        } else {
            let role: Role = if has_role(m, "assistant") {
                Role::Assistant
            } else {
                Role::User
            };
            let turn = Turn { role, text: m.text.clone() };
            proof {
                lemma_turn_views_push(turns@, turn);
            }
            turns.push(turn);
        }
        i = i + 1;
    }
    assert(mv.take(i as int) =~= mv);
    let ghost all = turn_views(turns@);
    let mut at: usize = turns.len();
    while at > 0 && turns[at - 1].role != Role::User
        invariant
            at <= turns@.len(),
            all == turn_views(turns@),
            forall|j: int| at <= j < all.len() ==> (#[trigger] all[j]).0 != Role::User,
        decreases at,
    {
        at = at - 1;
    }
    if at == 0 {
        return None;
    }
    let k: usize = at - 1;
    let last: Turn = turns.remove(k);
    turns.truncate(k);
    proof {
        assert(all[k as int] == (last.role, last.text@));
        assert(last_user_turn(all, k as int));
        assert(turn_views(turns@) =~= all.take(k as int));
    }
    let ghost hist = turn_views(turns@);
    let mut convo: Vec<u64> = Vec::new();
    let mut j: usize = 0;
    assert(hist.take(0) =~= Seq::empty());
    while j < turns.len()
        invariant
            j <= turns@.len(),
            hist == turn_views(turns@),
            convo@ == user_identities(hist.take(j as int)),
        decreases turns@.len() - j,
    {
        proof {
            assert(hist.take(j + 1).drop_last() =~= hist.take(j as int));
            assert(hist.take(j + 1).last() == hist[j as int]);
        }
        if turns[j].role == Role::User {
            convo.push(turn_hash(turns[j].text.as_str()));
        }
        j = j + 1;
    }
    assert(hist.take(j as int) =~= hist);
    convo.push(turn_hash(last.text.as_str()));
    Some(ChatPrompt { system, history: turns, user: last.text, convo })
}

// ---- Reading the request ----

/// A message of a request body. A text that is missing or no string is empty.
pub open spec fn body_message(v: JsonView) -> MessageView {
    MessageView {
        role: v.member_text("role"@),
        text: match v.member_text("content"@) {
            Some(t) => t,
            None => Seq::empty(),
        },
    }
}

/// The messages of a request body, if it has any list of them.
pub open spec fn body_messages(body: JsonView) -> Option<Seq<MessageView>> {
    match body.member("messages"@) {
        Some(m) => match m.items() {
            Some(items) => Some(Seq::new(items.len(), |i: int| body_message(items[i]))),
            None => None,
        },
        None => None,
    }
}

/// Reads the messages of a request body.
pub fn read_messages(body: &Value) -> (r: Option<Vec<ChatMessage>>)
    ensures
        match r {
            Some(m) => body_messages(json_of(*body)) == Some(message_views(m@)),
            None => body_messages(json_of(*body)) is None,
        },
{
    let list: &Value = match member(body, "messages") {
        Some(m) => m,
        None => {
            return None;
        },
    };
    let items: &Vec<Value> = match array_value(list) {
        Some(a) => a,
        None => {
            return None;
        },
    };
    let mut out: Vec<ChatMessage> = Vec::new();
    let mut i: usize = 0;
    while i < items.len()
        invariant
            i <= items@.len(),
            message_views(out@) =~= Seq::new(i as nat, |i: int| body_message(json_of(items@[i]))),
        decreases items@.len() - i,
    {
        let v: &Value = &items[i];
        let role: Option<String> = match read_string(v, "role") {
            Some(s) => Some(String::from_str(s)),
            None => None,
        };
        let text: String = match read_string(v, "content") {
            Some(s) => String::from_str(s),
            None => String::new(),
        };
        let ghost before = out@;
        let m = ChatMessage { role, text };
        out.push(m);
        proof {
            assert(m@ == body_message(json_of(items@[i as int]))) by {
                if json_of(items@[i as int]).member_text("content"@) is None {
                    assert(m.text@ =~= Seq::<char>::empty());
                }
            }
            assert(message_views(out@) =~= message_views(before).push(m@));
        }
        i = i + 1;
    }
    assert(message_views(out@) =~= Seq::new(
        items@.len(),
        |i: int| body_message(all_json_of(items@)[i]),
    ));
    Some(out)
}

/// Most tokens of an answer when the request does not say.
pub const DEFAULT_MAX_TOKENS: u64 = 512;

/// A chat request, read.
#[derive(Debug)]
pub struct ChatInput {
    pub model: String,
    pub max_tokens: u64,
    pub prompt: ChatPrompt,
}

/// Reads a chat request.
pub fn read_chat_input(body: &Value) -> (r: Result<ChatInput, String>)
    ensures
        match r {
            Ok(c) => {
                &&& c.model@ == match json_of(*body).member_text("model"@) {
                    Some(m) => m,
                    None => "unknown"@,
                }
                &&& c.max_tokens == match json_of(*body).member_unsigned("max_tokens"@) {
                    Some(n) => n,
                    None => DEFAULT_MAX_TOKENS,
                }
                &&& body_messages(json_of(*body)) is Some
                &&& c.prompt.is_prompt_of(body_messages(json_of(*body))->Some_0)
            },
            Err(e) => match body_messages(json_of(*body)) {
                None => e@ == "messages is required"@,
                Some(m) => {
                    &&& forall|i: int| !#[trigger] last_user_turn(chat_turns(m), i)
                    &&& e@ == "messages must contain at least one user message"@
                },
            },
        },
{
    let model: String = match read_string(body, "model") {
        Some(s) => String::from_str(s),
        None => String::from_str("unknown"),
    };
    let max_tokens: u64 = match read_u64(body, "max_tokens") {
        Some(n) => n,
        None => DEFAULT_MAX_TOKENS,
    };
    let messages: Vec<ChatMessage> = match read_messages(body) {
        Some(m) => m,
        None => {
            return Err(String::from_str("messages is required"));
        },
    };
    match fold_messages(messages.as_slice()) {
        Some(prompt) => Ok(ChatInput { model, max_tokens, prompt }),
        None => Err(String::from_str("messages must contain at least one user message")),
    }
}

// ---- Collecting the answer ----

/// What the engine says of a request.
#[derive(Debug, Clone, PartialEq, Eq)]
pub enum EngineEvent {
    Accepted,
    Token(u32),
    Done(DoneReason),
    Rejected(String),
    /// Nothing came in time.
    Timeout,
    /// The engine has gone.
    Disconnected,
}

/// What to do next.
#[derive(Debug, Clone, PartialEq, Eq)]
pub enum AnswerStep {
    Wait,
    /// Decode this token and route its text.
    Decode(u32),
    /// The answer is complete, with this finish reason.
    Finish(&'static str),
    /// The request failed with this message.
    Fail(String),
    /// The client has cancelled.
    Cancel,
}

/// Decides what to do about an event. Cancellation is looked at first; an
/// engine that goes away ends the answer as if it had stopped.
pub fn answer_step(cancelled: bool, event: EngineEvent) -> (r: AnswerStep)
    ensures
        if cancelled {
            r == AnswerStep::Cancel
        } else {
            match event {
                EngineEvent::Accepted => r == AnswerStep::Wait,
                EngineEvent::Timeout => r == AnswerStep::Wait,
                EngineEvent::Token(id) => r == AnswerStep::Decode(id),
                EngineEvent::Done(reason) => r is Finish && r->Finish_0@ == if reason
                    == DoneReason::MaxTokens {
                    "length"@
                } else {
                    "stop"@
                },
                EngineEvent::Rejected(why) => r is Fail && r->Fail_0@ == "multi_slot rejected: "@
                    + why@,
                EngineEvent::Disconnected => r is Finish && r->Finish_0@ == "stop"@,
            }
        },
{
    if cancelled {
        return AnswerStep::Cancel;
    }
    match event {
        EngineEvent::Accepted => AnswerStep::Wait,
        EngineEvent::Timeout => AnswerStep::Wait,
        EngineEvent::Token(id) => AnswerStep::Decode(id),
        EngineEvent::Done(reason) => if reason == DoneReason::MaxTokens {
            AnswerStep::Finish("length")
        } else {
            AnswerStep::Finish("stop")
        },
        EngineEvent::Rejected(why) => AnswerStep::Fail(
            join2("multi_slot rejected: ", why.as_str()),
        ),
        EngineEvent::Disconnected => AnswerStep::Finish("stop"),
    }
}

/// How the prompt opens the answer.
#[derive(Debug, Clone, Copy, PartialEq, Eq, Structural)]
pub enum AssistantPrefix {
    /// With an open thinking block. A thinking model that has to open the block
    /// itself loops on closing it instead.
    OpenThink,
    /// With nothing.
    Plain,
}

/// How the prompt opens the answer of a model that has a thinking marker or has
/// none.
pub fn assistant_prefix(has_think: bool) -> (r: AssistantPrefix)
    ensures
        r == if has_think {
            AssistantPrefix::OpenThink
        } else {
            AssistantPrefix::Plain
        },
{
    if has_think {
        AssistantPrefix::OpenThink
    } else {
        AssistantPrefix::Plain
    }
}

/// Whether the answer starts as reasoning: it does where the prompt itself opened
/// the block, for no opening marker comes in the answer.
pub fn starts_in_think(prefix: AssistantPrefix) -> (r: bool)
    ensures
        r == (prefix == AssistantPrefix::OpenThink),
{
    match prefix {
        AssistantPrefix::OpenThink => true,
        AssistantPrefix::Plain => false,
    }
}

/// A piece of the answer: visible text or reasoning.
#[derive(Debug, Clone, PartialEq, Eq)]
pub enum RoutedText {
    Content(String),
    Reasoning(String),
}

/// The answer so far.
#[derive(Debug)]
pub struct Answer {
    pub content: String,
    pub reasoning_content: String,
}

impl Default for Answer {
    /// Nothing yet.
    fn default() -> (a: Answer)
        ensures
            a.content@.len() == 0,
            a.reasoning_content@.len() == 0,
    {
        Answer { content: String::new(), reasoning_content: String::new() }
    }
}

/// JSON text of the event that a piece is announced with.
pub open spec fn piece_event(kind: Seq<char>, text: Seq<char>) -> Seq<char> {
    "{\"text\":"@ + json_quoted(text) + ",\"type\":\""@ + kind + "\"}"@
}

/// Adds a piece to the answer. Returns the JSON text of the event to announce
/// it with.
pub fn add_piece(answer: &mut Answer, piece: &RoutedText) -> (r: String)
    ensures
        match *piece {
            RoutedText::Content(t) => {
                &&& final(answer).content@ == old(answer).content@ + t@
                &&& final(answer).reasoning_content@ == old(answer).reasoning_content@
                &&& r@ == piece_event("token"@, t@)
            },
            RoutedText::Reasoning(t) => {
                &&& final(answer).content@ == old(answer).content@
                &&& final(answer).reasoning_content@ == old(answer).reasoning_content@ + t@
                &&& r@ == piece_event("reasoning"@, t@)
            },
        },
{
    let mut e: String = String::from_str("{\"text\":");
    match piece {
        RoutedText::Content(t) => {
            answer.content.append(t.as_str());
            e.append(quote(t.as_str()).as_str());
            e.append(",\"type\":\"");
            e.append("token");
        },
        RoutedText::Reasoning(t) => {
            answer.reasoning_content.append(t.as_str());
            e.append(quote(t.as_str()).as_str());
            e.append(",\"type\":\"");
            e.append("reasoning");
        },
    }
    e.append("\"}");
    e
}

// ---- Laws ----

/// The conversation's identity is its user turns, in order, the prompt last:
/// whatever the client makes of the assistant's side does not change it.
pub proof fn law_identity_ignores_the_assistant(a: Seq<(Role, Seq<char>)>, b: Seq<(
    Role,
    Seq<char>,
)>)
    requires
        a.len() == b.len(),
        forall|i: int|
            0 <= i < a.len() ==> (#[trigger] a[i]).0 == b[i].0 && (a[i].0 == Role::User ==> a[i].1
                == b[i].1),
    ensures
        user_identities(a) == user_identities(b),
    decreases a.len(),
{
    if a.len() > 0 {
        let x = a.drop_last();
        let y = b.drop_last();
        assert forall|i: int| 0 <= i < x.len() implies (#[trigger] x[i]).0 == y[i].0 && (x[i].0
            == Role::User ==> x[i].1 == y[i].1) by {
            assert(a[i].0 == b[i].0);
        }
        law_identity_ignores_the_assistant(x, y);
        assert(a[a.len() - 1].0 == b[a.len() - 1].0);
    }
}

/// A follow-up extends the identity: appending an answer and a new user turn to
/// a conversation appends one identity, so the session one turn behind can be
/// found by it.
pub proof fn law_followup_extends_the_identity(
    turns: Seq<(Role, Seq<char>)>,
    answer: Seq<char>,
    next: Seq<char>,
)
    ensures
        user_identities(turns.push((Role::Assistant, answer)).push((Role::User, next)))
            == user_identities(turns).push(turn_identity(next)),
{
    let a = turns.push((Role::Assistant, answer));
    let b = a.push((Role::User, next));
    assert(b.drop_last() =~= a);
    assert(a.drop_last() =~= turns);
    assert(a.last() == (Role::Assistant, answer));
    assert(user_identities(a) == user_identities(turns));
}

// ---- Laws of folding, over the messages ----

proof fn lemma_turn_of_message(m: Seq<MessageView>, j: int)
    requires
        0 <= j < m.len(),
        !is_system(m[j]),
    ensures
        chat_turns(m.take(j)).len() < chat_turns(m).len(),
        chat_turns(m)[chat_turns(m.take(j)).len() as int] == (speaker(m[j]), m[j].text),
        chat_turns(m).take(chat_turns(m.take(j)).len() as int) == chat_turns(m.take(j)),
    decreases m.len(),
{
    let init = m.drop_last();
    if j == m.len() - 1 {
        assert(m.take(j) =~= init);
        assert(chat_turns(m).take(chat_turns(init).len() as int) =~= chat_turns(init));
    } else {
        lemma_turn_of_message(init, j);
        assert(init.take(j) =~= m.take(j));
        let t = chat_turns(m.take(j)).len() as int;
        assert(chat_turns(m).take(t) =~= chat_turns(init).take(t));
    }
}

proof fn lemma_message_of_turn(m: Seq<MessageView>, t: int) -> (j: int)
    requires
        0 <= t < chat_turns(m).len(),
    ensures
        0 <= j < m.len(),
        !is_system(m[j]),
        chat_turns(m.take(j)).len() == t,
    decreases m.len(),
{
    let init = m.drop_last();
    if !is_system(m.last()) && t == chat_turns(init).len() {
        assert(m.take(m.len() - 1) =~= init);
        m.len() - 1
    } else {
        let j = lemma_message_of_turn(init, t);
        assert(init.take(j) =~= m.take(j));
        j
    }
}

proof fn lemma_turns_grow(m: Seq<MessageView>, i: int, j: int)
    requires
        0 <= i <= j <= m.len(),
    ensures
        chat_turns(m.take(i)).len() <= chat_turns(m.take(j)).len(),
        i < j && !is_system(m[i]) ==> chat_turns(m.take(i)).len() < chat_turns(m.take(j)).len(),
    decreases j,
{
    if i < j {
        lemma_turns_grow(m, i, j - 1);
        assert(m.take(j).drop_last() =~= m.take(j - 1));
        assert(m.take(j).last() == m[j - 1]);
    }
}

/// The prompt is the last message that neither the system nor the assistant
/// wrote, its history the turns of the messages before it, and its identity one
/// number for every such message up to it.
pub proof fn law_the_prompt_is_the_last_user_message(p: ChatPrompt, m: Seq<MessageView>)
    requires
        p.is_prompt_of(m),
    ensures
        exists|i: int|
            {
                &&& 0 <= i < m.len()
                &&& (#[trigger] m[i]).role != Some("system"@)
                &&& m[i].role != Some("assistant"@)
                &&& forall|j: int|
                    i < j < m.len() ==> (#[trigger] m[j]).role == Some("system"@) || m[j].role
                        == Some("assistant"@)
                &&& p.user@ == m[i].text
                &&& turn_views(p.history@) == chat_turns(m.take(i))
            },
        p.convo@.len() > 0,
        p.convo@.last() == turn_identity(p.user@),
{
    let turns = chat_turns(m);
    let t = choose|i: int| #[trigger]
        last_user_turn(turns, i) && p.user@ == turns[i].1 && turn_views(p.history@) == turns.take(
            i,
        );
    let i = lemma_message_of_turn(m, t);
    lemma_turn_of_message(m, i);
    assert forall|j: int| i < j < m.len() implies (#[trigger] m[j]).role == Some("system"@)
        || m[j].role == Some("assistant"@) by {
        if !is_system(m[j]) {
            lemma_turn_of_message(m, j);
            lemma_turns_grow(m, i, j);
            let u = chat_turns(m.take(j)).len() as int;
            assert(turns[u].0 != Role::User);
        }
    }
    assert(turns[t].0 == Role::User);
    assert(m[i].role != Some("system"@));
}

/// A request is refused only where nobody but the system and the assistant wrote.
pub proof fn law_user_messages_make_a_prompt(m: Seq<MessageView>, i: int)
    requires
        0 <= i < m.len(),
        m[i].role != Some("system"@),
        m[i].role != Some("assistant"@),
    ensures
        exists|t: int| #[trigger] last_user_turn(chat_turns(m), t),
{
    lemma_turn_of_message(m, i);
    lemma_last_user_turn(chat_turns(m), chat_turns(m.take(i)).len() as int);
}

proof fn lemma_last_user_turn(turns: Seq<(Role, Seq<char>)>, i: int)
    requires
        0 <= i < turns.len(),
        turns[i].0 == Role::User,
    ensures
        exists|t: int| #[trigger] last_user_turn(turns, t),
    decreases turns.len() - i,
{
    if exists|j: int| i < j < turns.len() && (#[trigger] turns[j]).0 == Role::User {
        let j = choose|j: int| i < j < turns.len() && (#[trigger] turns[j]).0 == Role::User;
        lemma_last_user_turn(turns, j);
    } else {
        assert(last_user_turn(turns, i));
    }
}

/// Each message adds what it says and nothing else: a system message a line of
/// system text, any other a turn, the assistant's as the assistant's and all
/// others as the user's.
pub proof fn law_each_message_adds_itself(m: Seq<MessageView>, x: MessageView)
    ensures
        x.role == Some("system"@) ==> chat_turns(m.push(x)) == chat_turns(m) && system_text(
            m.push(x),
        ) is Some,
        x.role == Some("system"@) && system_text(m) is None ==> system_text(m.push(x)) == Some(
            x.text,
        ),
        x.role == Some("system"@) && system_text(m) is Some ==> system_text(m.push(x)) == Some(
            system_text(m)->Some_0 + "\n"@ + x.text,
        ),
        x.role != Some("system"@) ==> system_text(m.push(x)) == system_text(m) && chat_turns(
            m.push(x),
        ).len() == chat_turns(m).len() + 1 && chat_turns(m.push(x)).last().1 == x.text
            && chat_turns(m.push(x)).drop_last() == chat_turns(m),
        x.role == Some("assistant"@) ==> chat_turns(m.push(x)).last().0 == Role::Assistant,
        x.role != Some("system"@) && x.role != Some("assistant"@) ==> chat_turns(
            m.push(x),
        ).last().0 == Role::User,
        chat_turns(Seq::<MessageView>::empty()).len() == 0,
        system_text(Seq::<MessageView>::empty()) is None,
{
    reveal_strlit("system");
    reveal_strlit("assistant");
    assert(m.push(x).drop_last() =~= m);
    assert("system"@.len() != "assistant"@.len());
    assert(chat_turns(m.push(x)).drop_last() =~= if is_system(x) {
        chat_turns(m).drop_last()
    } else {
        chat_turns(m)
    });
}

/// Each user turn is one number of the identity, in order, and the assistant's
/// turns are none.
pub proof fn law_each_user_turn_is_one_identity(turns: Seq<(Role, Seq<char>)>, t: (Role, Seq<char>))
    ensures
        t.0 == Role::User ==> user_identities(turns.push(t)) == user_identities(turns).push(
            turn_identity(t.1),
        ),
        t.0 == Role::Assistant ==> user_identities(turns.push(t)) == user_identities(turns),
        user_identities(Seq::<(Role, Seq<char>)>::empty()).len() == 0,
{
    assert(turns.push(t).drop_last() =~= turns);
}

/// Every message of a body is read, in order, with its role and its text; a text
/// that is no string is empty.
pub proof fn law_every_message_is_read(body: JsonView, list: Seq<JsonView>, i: int)
    requires
        body.member("messages"@) == Some(JsonView::Array(list)),
        0 <= i < list.len(),
    ensures
        body_messages(body) is Some,
        body_messages(body)->Some_0.len() == list.len(),
        body_messages(body)->Some_0[i].role == list[i].member_text("role"@),
        list[i].member_text("content"@) is Some ==> Some(body_messages(body)->Some_0[i].text)
            == list[i].member_text("content"@),
        list[i].member_text("content"@) is None ==> body_messages(body)->Some_0[i].text.len() == 0,
{
}

/// A piece is announced with its text, under the name of its channel.
pub proof fn law_pieces_are_announced_with_their_text(kind: Seq<char>, text: Seq<char>)
    ensures
        occurs(piece_event(kind, text), "{\"text\":"@ + json_quoted(text)),
        occurs(piece_event(kind, text), ",\"type\":\""@ + kind),
{
    let p = seq!["{\"text\":"@, json_quoted(text), ",\"type\":\""@, kind, "\"}"@];
    reveal_with_fuel(joined_texts, 6);
    assert(piece_event(kind, text) == joined_texts(p, 5));
    lemma_pieces_occur(p, 5, 0);
    lemma_pieces_occur(p, 5, 2);
}

} // verus!
