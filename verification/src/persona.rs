//! Personas: what a persona reacts to, the prompt it is given, and what it
//! keeps in its chat log.
use vstd::prelude::*;

use crate::bus::{BusEvent, EventKind};
use crate::llm::{
    clone_opt, assistant_role, message_views, opt_view, role_assistant, role_user, user_role, ChatMessage,
    ChatMessageView,
};
use crate::session::Message;
use crate::text::{owned, push_char, push_str};

verus! {

/// The file with the persona's system prompt.
pub open spec fn solo_filename() -> Seq<char> {
    seq!['s', 'o', 'l', 'o', '.', 'm', 'd']
}

/// The file with the persona's long-term memory.
pub open spec fn memory_filename() -> Seq<char> {
    seq!['m', 'e', 'm', 'o', 'r', 'y', '.', 'm', 'd']
}

/// A persona, known by its name.
#[derive(Debug)]
pub struct Persona {
    pub name: String,
}

/// One entry of a persona's chat log.
#[derive(Debug)]
pub struct ChatLogEntry {
    pub sender: String,
    pub content: String,
    pub timestamp: i64,
    pub context: String,
}

pub struct ChatLogEntryView {
    pub sender: Seq<char>,
    pub content: Seq<char>,
    pub timestamp: i64,
    pub context: Seq<char>,
}

impl View for ChatLogEntry {
    type V = ChatLogEntryView;

    open spec fn view(&self) -> ChatLogEntryView {
        ChatLogEntryView {
            sender: self.sender@,
            content: self.content@,
            timestamp: self.timestamp,
            context: self.context@,
        }
    }
}

/// The views of a sequence of chat-log entries.
pub open spec fn entry_views(v: Seq<ChatLogEntry>) -> Seq<ChatLogEntryView> {
    v.map_values(|e: ChatLogEntry| e@)
}

/// Whether a persona named `name` reacts to `e`: not its own event, and
/// addressed to it or to nobody in particular.
pub open spec fn accepts_spec(e: BusEvent, name: Seq<char>) -> bool {
    &&& e.sender@ != name
    &&& match e.target {
        Some(t) => t@ == name,
        None => true,
    }
}

/// The message a chat-log entry stands for in the prompt: the persona's own
/// entries as `assistant`, all others as `user`.
pub open spec fn entry_message(e: ChatLogEntryView, name: Seq<char>) -> ChatMessageView {
    ChatMessageView {
        role: if e.sender == name {
            role_assistant()
        } else {
            role_user()
        },
        content: Some(e.content),
        tool_calls: None,
        tool_call_id: None,
    }
}

/// In the prompt, an entry that another speaker wrote is never the persona's
/// own turn: it is a `user` message, and only the persona's own entries are
/// `assistant` messages. The text is the entry's text either way.
pub proof fn entry_roles(e: ChatLogEntryView, name: Seq<char>)
    ensures
        e.sender != name ==> entry_message(e, name).role == role_user(),
        e.sender == name ==> entry_message(e, name).role == role_assistant(),
        role_user() != role_assistant(),
        entry_message(e, name).content == Some(e.content),
{
    assert(role_user()[0] != role_assistant()[0]);
}

/// The chat-log text of a message: its content, or its role in brackets.
pub open spec fn log_text(m: ChatMessageView) -> Seq<char> {
    match m.content {
        Some(c) => c,
        None => seq!['['] + m.role + seq![']'],
    }
}

/// A section of the system prompt: `# `, the file name, a line break, the text.
pub open spec fn prompt_section(filename: Seq<char>, content: Seq<char>) -> Seq<char> {
    seq!['#', ' '] + filename + seq!['\n'] + content
}

/// The system prompt from the persona files read, in order: each file that was
/// read and is not empty becomes a section; sections are separated by a blank
/// line.
pub open spec fn system_prompt_spec(files: Seq<(Seq<char>, Option<Seq<char>>)>) -> Seq<char>
    decreases files.len(),
{
    if files.len() == 0 {
        Seq::empty()
    } else {
        let rest = system_prompt_spec(files.drop_last());
        let (name, content) = files.last();
        match content {
            Some(c) => if c.len() == 0 {
                rest
            } else if rest.len() == 0 {
                prompt_section(name, c)
            } else {
                rest + seq!['\n', '\n'] + prompt_section(name, c)
            },
            None => rest,
        }
    }
}

impl Persona {
    /// Whether this persona reacts to `event`.
    pub fn accepts(&self, event: &BusEvent) -> (r: bool)
        ensures
            r == accepts_spec(*event, self.name@),
    {
        if event.sender == self.name {
            return false;
        }
        match &event.target {
            Some(t) => *t == self.name,
            None => true,
        }
    }

    /// The prompt messages for the persona's chat log.
    pub fn chatlog_messages(&self, entries: Vec<ChatLogEntry>) -> (r: Vec<ChatMessage>)
        ensures
            message_views(r@) == entry_views(entries@).map_values(
                |e: ChatLogEntryView| entry_message(e, self.name@),
            ),
            r@.len() == entries@.len(),
            forall|i: int|
                0 <= i < r@.len() ==> {
                    &&& (#[trigger] r@[i]).role@ == (if entries@[i].sender@ == self.name@ {
                        role_assistant()
                    } else {
                        role_user()
                    })
                    &&& r@[i]@.content == Some(entries@[i].content@)
                    &&& r@[i].tool_calls is None
                    &&& r@[i].tool_call_id is None
                },
    {
        let mut r: Vec<ChatMessage> = Vec::new();
        let mut k: usize = 0;
        while k < entries.len()
            invariant
                k <= entries@.len(),
                r@.len() == k,
                forall|j: int|
                    0 <= j < k ==> (#[trigger] r@[j])@ == entry_message(entries@[j]@, self.name@),
            decreases entries.len() - k,
        {
            let e = &entries[k];
            let role = if e.sender == self.name {
                assistant_role()
            } else {
                user_role()
            };
            r.push(
                ChatMessage {
                    role,
                    content: Some(e.content.clone()),
                    tool_calls: None,
                    tool_call_id: None,
                },
            );
            k = k + 1;
        }
        assert(message_views(r@) =~= entry_views(entries@).map_values(
            |e: ChatLogEntryView| entry_message(e, self.name@),
        ));
        r
    }

    /// The chat-log entries for the messages a run added, all from this
    /// persona, at time `now`, with no context.
    pub fn log_entries(&self, msgs: &Vec<ChatMessage>, now: i64) -> (r: Vec<ChatLogEntry>)
        ensures
            r@.len() == msgs@.len(),
            forall|i: int|
                0 <= i < r@.len() ==> (#[trigger] r@[i])@ == (ChatLogEntryView {
                    sender: self.name@,
                    content: log_text(msgs@[i]@),
                    timestamp: now,
                    context: Seq::empty(),
                }),
    {
        let mut r: Vec<ChatLogEntry> = Vec::new();
        let mut k: usize = 0;
        while k < msgs.len()
            invariant
                k <= msgs@.len(),
                r@.len() == k,
                forall|j: int|
                    0 <= j < k ==> (#[trigger] r@[j])@ == (ChatLogEntryView {
                        sender: self.name@,
                        content: log_text(msgs@[j]@),
                        timestamp: now,
                        context: Seq::empty(),
                    }),
            decreases msgs.len() - k,
        {
            let m = &msgs[k];
            let content = match &m.content {
                Some(c) => c.clone(),
                None => {
                    let mut t = String::new();
                    push_char(&mut t, '[');
                    push_str(&mut t, m.role.as_str());
                    push_char(&mut t, ']');
                    t
                },
            };
            assert(content@ =~= log_text(msgs@[k as int]@));
            let ctx = String::new();
            r.push(ChatLogEntry { sender: self.name.clone(), content, timestamp: now, context: ctx });
            k = k + 1;
        }
        r
    }
}

/// The chat-log entry for an incoming event.
pub fn incoming_entry(event: &BusEvent) -> (r: ChatLogEntry)
    ensures
        r@ == (ChatLogEntryView {
            sender: event.sender@,
            content: event.content@,
            timestamp: event.timestamp,
            context: event.context@,
        }),
{
    ChatLogEntry {
        sender: event.sender.clone(),
        content: event.content.clone(),
        timestamp: event.timestamp,
        context: event.context.clone(),
    }
}

/// The user message for an incoming event.
pub fn incoming_message(event: &BusEvent) -> (r: ChatMessage)
    ensures
        r@ == (ChatMessageView {
            role: role_user(),
            content: Some(event.content@),
            tool_calls: None,
            tool_call_id: None,
        }),
{
    ChatMessage {
        role: user_role(),
        content: Some(event.content.clone()),
        tool_calls: None,
        tool_call_id: None,
    }
}

/// The reply to send back on the bus after a run: the text of the last added
/// message when it is an `assistant` message with text.
pub fn reply_of(msgs: &Vec<ChatMessage>) -> (r: Option<String>)
    ensures
        r matches Some(c) ==> msgs@.len() > 0 && msgs@.last()@.role == role_assistant()
            && msgs@.last()@.content == Some(c@),
        r is None ==> msgs@.len() == 0 || msgs@.last()@.role != role_assistant()
            || msgs@.last()@.content is None,
{
    if msgs.len() == 0 {
        return None;
    }
    let last = &msgs[msgs.len() - 1];
    let a = assistant_role();
    match &last.content {
        Some(c) => {
            if last.role == a {
                Some(c.clone())
            } else {
                None
            }
        },
        None => None,
    }
}

/// The system prompt from the persona files read, in order (see
/// [`system_prompt_spec`]); `None` stands for a file that could not be read.
pub fn system_prompt(files: &Vec<(String, Option<String>)>) -> (r: String)
    ensures
        r@ == system_prompt_spec(
            files@.map_values(|f: (String, Option<String>)| (f.0@, opt_view(f.1))),
        ),
{
    let ghost fv = files@.map_values(|f: (String, Option<String>)| (f.0@, opt_view(f.1)));
    let mut out = String::new();
    let mut k: usize = 0;
    assert(fv.subrange(0, 0) =~= Seq::<(Seq<char>, Option<Seq<char>>)>::empty());
    while k < files.len()
        invariant
            k <= files@.len(),
            fv == files@.map_values(|f: (String, Option<String>)| (f.0@, opt_view(f.1))),
            out@ == system_prompt_spec(fv.subrange(0, k as int)),
        decreases files.len() - k,
    {
        let ghost pre = fv.subrange(0, k + 1);
        assert(pre.drop_last() =~= fv.subrange(0, k as int));
        assert(pre.last() == fv[k as int]);
        let (name, content) = (&files[k].0, &files[k].1);
        match content {
            Some(c) => {
                if c.as_str().is_empty() == false {
                    let first = out.as_str().is_empty();
                    if !first {
                        push_char(&mut out, '\n');
                        push_char(&mut out, '\n');
                    }
                    push_char(&mut out, '#');
                    push_char(&mut out, ' ');
                    push_str(&mut out, name.as_str());
                    push_char(&mut out, '\n');
                    push_str(&mut out, c.as_str());
                }
            },
            None => {},
        }
        k = k + 1;
        assert(out@ =~= system_prompt_spec(fv.subrange(0, k as int)));
    }
    assert(fv.subrange(0, files@.len() as int) =~= fv);
    out
}

// ───────────────────────── one turn ─────────────────────────

/// What a persona works with for one incoming event.
#[derive(Debug)]
pub struct Turn {
    /// The conversation for the agent: the chat log, then the event's text as
    /// a user message.
    pub messages: Vec<ChatMessage>,
    /// The chat-log entry for the event itself.
    pub incoming: ChatLogEntry,
}

impl Persona {
    /// The turn for `event` with the chat log `history`; `None` where the event
    /// is not for this persona.
    pub fn begin_turn(&self, event: &BusEvent, history: Vec<ChatLogEntry>) -> (r: Option<Turn>)
        ensures
            !accepts_spec(*event, self.name@) ==> r is None,
            accepts_spec(*event, self.name@) ==> (r matches Some(t) && message_views(t.messages@)
                == entry_views(history@).map_values(
                |e: ChatLogEntryView| entry_message(e, self.name@),
            ).push(
                ChatMessageView {
                    role: role_user(),
                    content: Some(event.content@),
                    tool_calls: None,
                    tool_call_id: None,
                },
            ) && t.incoming@ == (ChatLogEntryView {
                sender: event.sender@,
                content: event.content@,
                timestamp: event.timestamp,
                context: event.context@,
            })),
    {
        if !self.accepts(event) {
            return None;
        }
        let mut messages = self.chatlog_messages(history);
        let m = incoming_message(event);
        let ghost before = message_views(messages@);
        messages.push(m);
        assert(message_views(messages@) =~= before.push(m@));
        Some(Turn { messages, incoming: incoming_entry(event) })
    }

    /// After a run for `event` that added `added` at time `now`: the chat-log
    /// entries to append, and the answer to put on the bus, from this persona
    /// under the event's request id, where the run ended with an assistant text.
    pub fn finish_turn(&self, event: &BusEvent, added: &Vec<ChatMessage>, now: i64) -> (r: (
        Vec<ChatLogEntry>,
        Option<BusEvent>,
    ))
        ensures
            r.0@.len() == added@.len(),
            forall|i: int|
                0 <= i < r.0@.len() ==> (#[trigger] r.0@[i])@ == (ChatLogEntryView {
                    sender: self.name@,
                    content: log_text(added@[i]@),
                    timestamp: now,
                    context: Seq::empty(),
                }),
            match r.1 {
                Some(e) => {
                    &&& e.kind == EventKind::Message
                    &&& e.sender@ == self.name@
                    &&& e.request_id == event.request_id
                    &&& e.target is None
                    &&& added@.len() > 0
                    &&& added@.last()@.role == role_assistant()
                    &&& added@.last()@.content == Some(e.content@)
                },
                None => added@.len() == 0 || added@.last()@.role != role_assistant()
                    || added@.last()@.content is None,
            },
    {
        let entries = self.log_entries(added, now);
        let reply = match reply_of(added) {
            Some(c) => Some(BusEvent::message(self.name.clone(), c, clone_opt(&event.request_id))),
            None => None,
        };
        (entries, reply)
    }
}

// ───────────────────────── the session handler ─────────────────────────

/// Answers each new message of a session with the current persona: its prompt
/// is [`system_prompt`] of the persona's files, and the model is asked with it.
#[derive(Debug)]
pub struct PersonaHandler;

impl PersonaHandler {
    pub fn new() -> (r: Self) {
        PersonaHandler
    }
}

/// A model that answers every conversation with the same placeholder text.
#[derive(Debug)]
pub struct StubLlm;

/// The placeholder answer of [`StubLlm`].
pub open spec fn stub_reply() -> Seq<char> {
    seq![
        '[', 'S', 't', 'u', 'b', ' ', 'L', 'L', 'M', ' ', 'r', 'e', 's', 'p', 'o', 'n', 's', 'e',
        ']',
    ]
}

impl StubLlm {
    /// The answer to `messages` under the prompt `system`: always [`stub_reply`].
    pub fn chat(&self, system: &str, messages: &Vec<Message>) -> (r: String)
        ensures
            r@ == stub_reply(),
    {
        let t = "[Stub LLM response]";
        proof {
            reveal_strlit("[Stub LLM response]");
            assert(t@ =~= stub_reply());
        }
        owned(t)
    }
}

} // verus!
