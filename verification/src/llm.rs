//! Messages exchanged with a chat-completion model, and their wire form.
use vstd::prelude::*;

use crate::text::{owned, push_str};
use crate::tool::{ToolParams, ToolParamsView};

verus! {

/// A call of a tool that the model asked for.
#[derive(Debug)]
pub struct ToolCall {
    pub id: String,
    pub name: String,
    pub arguments: String,
}

pub struct ToolCallView {
    pub id: Seq<char>,
    pub name: Seq<char>,
    pub arguments: Seq<char>,
}

impl View for ToolCall {
    type V = ToolCallView;

    open spec fn view(&self) -> ToolCallView {
        ToolCallView { id: self.id@, name: self.name@, arguments: self.arguments@ }
    }
}

impl Clone for ToolCall {
    fn clone(&self) -> (r: Self)
        ensures
            r == *self,
    {
        ToolCall { id: self.id.clone(), name: self.name.clone(), arguments: self.arguments.clone() }
    }
}

/// The views of a sequence of tool calls.
pub open spec fn call_views(v: Seq<ToolCall>) -> Seq<ToolCallView> {
    v.map_values(|c: ToolCall| c@)
}

/// A copy of a list of tool calls.
pub fn clone_calls(v: &Vec<ToolCall>) -> (r: Vec<ToolCall>)
    ensures
        r@ == v@,
{
    let mut r: Vec<ToolCall> = Vec::new();
    let mut k: usize = 0;
    while k < v.len()
        invariant
            k <= v.len(),
            r@ == v@.subrange(0, k as int),
        decreases v.len() - k,
    {
        r.push(v[k].clone());
        k = k + 1;
        assert(r@ =~= v@.subrange(0, k as int));
    }
    assert(v@.subrange(0, v@.len() as int) =~= v@);
    r
}

/// A tool as offered to the model.
#[derive(Debug)]
pub struct ToolDef {
    pub name: String,
    pub description: String,
    pub parameters: ToolParams,
}

pub struct ToolDefView {
    pub name: Seq<char>,
    pub description: Seq<char>,
    pub parameters: ToolParamsView,
}

impl View for ToolDef {
    type V = ToolDefView;

    open spec fn view(&self) -> ToolDefView {
        ToolDefView {
            name: self.name@,
            description: self.description@,
            parameters: self.parameters@,
        }
    }
}

/// What the model answered: text, tool calls, or both.
#[derive(Debug)]
pub struct LlmResponse {
    pub content: Option<String>,
    pub tool_calls: Vec<ToolCall>,
}

/// One message of a conversation.
#[derive(Debug)]
pub struct ChatMessage {
    pub role: String,
    pub content: Option<String>,
    pub tool_calls: Option<Vec<ToolCall>>,
    pub tool_call_id: Option<String>,
}

pub struct ChatMessageView {
    pub role: Seq<char>,
    pub content: Option<Seq<char>>,
    pub tool_calls: Option<Seq<ToolCallView>>,
    pub tool_call_id: Option<Seq<char>>,
}

/// The view of an optional string.
pub open spec fn opt_view(o: Option<String>) -> Option<Seq<char>> {
    match o {
        Some(s) => Some(s@),
        None => None,
    }
}

/// The view of optional tool calls.
pub open spec fn opt_calls_view(o: Option<Vec<ToolCall>>) -> Option<Seq<ToolCallView>> {
    match o {
        Some(v) => Some(call_views(v@)),
        None => None,
    }
}

impl View for ChatMessage {
    type V = ChatMessageView;

    open spec fn view(&self) -> ChatMessageView {
        ChatMessageView {
            role: self.role@,
            content: opt_view(self.content),
            tool_calls: opt_calls_view(self.tool_calls),
            tool_call_id: opt_view(self.tool_call_id),
        }
    }
}

/// A copy of an optional string.
pub fn clone_opt(o: &Option<String>) -> (r: Option<String>)
    ensures
        r == *o,
{
    match o {
        Some(s) => Some(s.clone()),
        None => None,
    }
}

impl Clone for ChatMessage {
    fn clone(&self) -> (r: Self)
        ensures
            r@ == self@,
    {
        let tool_calls = match &self.tool_calls {
            Some(v) => Some(clone_calls(v)),
            None => None,
        };
        ChatMessage {
            role: self.role.clone(),
            content: clone_opt(&self.content),
            tool_calls,
            tool_call_id: clone_opt(&self.tool_call_id),
        }
    }
}

/// The views of a sequence of messages.
pub open spec fn message_views(v: Seq<ChatMessage>) -> Seq<ChatMessageView> {
    v.map_values(|m: ChatMessage| m@)
}

/// A copy of a list of messages.
pub fn clone_messages(v: &Vec<ChatMessage>) -> (r: Vec<ChatMessage>)
    ensures
        message_views(r@) == message_views(v@),
{
    let mut r: Vec<ChatMessage> = Vec::new();
    let mut k: usize = 0;
    while k < v.len()
        invariant
            k <= v.len(),
            message_views(r@) == message_views(v@.subrange(0, k as int)),
            r@.len() == k,
        decreases v.len() - k,
    {
        let c = v[k].clone();
        assert(c@ == v@[k as int]@);
        let ghost old_r = r@;
        r.push(c);
        proof {
            let a = message_views(r@);
            let b = message_views(v@.subrange(0, k + 1));
            assert(a.len() == b.len());
            assert forall|i: int| 0 <= i < a.len() implies a[i] == b[i] by {
                if i < k {
                    assert(r@[i] == old_r[i]);
                    assert(message_views(old_r)[i] == message_views(v@.subrange(0, k as int))[i]);
                } else {
                    assert(r@[i] == c);
                }
            }
            assert(a =~= b);
        }
        k = k + 1;
    }
    assert(v@.subrange(0, v@.len() as int) =~= v@);
    r
}

pub open spec fn role_system() -> Seq<char> {
    seq!['s', 'y', 's', 't', 'e', 'm']
}

pub open spec fn role_user() -> Seq<char> {
    seq!['u', 's', 'e', 'r']
}

pub open spec fn role_assistant() -> Seq<char> {
    seq!['a', 's', 's', 'i', 's', 't', 'a', 'n', 't']
}

pub open spec fn role_tool() -> Seq<char> {
    seq!['t', 'o', 'o', 'l']
}

pub open spec fn function_kind() -> Seq<char> {
    seq!['f', 'u', 'n', 'c', 't', 'i', 'o', 'n']
}

/// The role text `system`.
pub fn system_role() -> (r: String)
    ensures
        r@ == role_system(),
{
    let r = owned("system");
    proof {
        reveal_strlit("system");
        assert(r@ =~= role_system());
    }
    r
}

/// The role text `user`.
pub fn user_role() -> (r: String)
    ensures
        r@ == role_user(),
{
    let r = owned("user");
    proof {
        reveal_strlit("user");
        assert(r@ =~= role_user());
    }
    r
}

/// The role text `assistant`.
pub fn assistant_role() -> (r: String)
    ensures
        r@ == role_assistant(),
{
    let r = owned("assistant");
    proof {
        reveal_strlit("assistant");
        assert(r@ =~= role_assistant());
    }
    r
}

/// The role text `tool`.
pub fn tool_role() -> (r: String)
    ensures
        r@ == role_tool(),
{
    let r = owned("tool");
    proof {
        reveal_strlit("tool");
        assert(r@ =~= role_tool());
    }
    r
}

/// The kind text `function`.
pub fn function_text() -> (r: String)
    ensures
        r@ == function_kind(),
{
    let r = owned("function");
    proof {
        reveal_strlit("function");
        assert(r@ =~= function_kind());
    }
    r
}

// ───────────────────────── wire form ─────────────────────────

/// The function part of a tool call on the wire.
#[derive(Debug)]
pub struct WireToolCallFunction {
    pub name: String,
    pub arguments: String,
}

/// A tool call on the wire.
#[derive(Debug)]
pub struct WireToolCall {
    pub id: String,
    pub tool_type: String,
    pub function: WireToolCallFunction,
}

/// A message on the wire.
#[derive(Debug)]
pub struct WireMessage {
    pub role: String,
    pub content: Option<String>,
    pub tool_calls: Option<Vec<WireToolCall>>,
    pub tool_call_id: Option<String>,
}

/// Whether the wire call `w` carries the tool call `c`.
pub open spec fn wire_call_of(w: WireToolCall, c: ToolCallView) -> bool {
    &&& w.id@ == c.id
    &&& w.tool_type@ == function_kind()
    &&& w.function.name@ == c.name
    &&& w.function.arguments@ == c.arguments
}

/// The wire form of `msg`: the same role, content and tool-call id, and each
/// tool call as a `function` call with the same id, name and arguments.
pub fn to_wire_message(msg: &ChatMessage) -> (w: WireMessage)
    ensures
        w.role@ == msg.role@,
        opt_view(w.content) == opt_view(msg.content),
        opt_view(w.tool_call_id) == opt_view(msg.tool_call_id),
        w.tool_calls is Some <==> msg.tool_calls is Some,
        w.tool_calls is Some ==> w.tool_calls.unwrap()@.len() == msg.tool_calls.unwrap()@.len()
            && forall|i: int|
            0 <= i < w.tool_calls.unwrap()@.len() ==> wire_call_of(
                #[trigger] w.tool_calls.unwrap()@[i],
                msg.tool_calls.unwrap()@[i]@,
            ),
{
    let tool_calls = match &msg.tool_calls {
        Some(tcs) => {
            let mut out: Vec<WireToolCall> = Vec::new();
            let mut k: usize = 0;
            while k < tcs.len()
                invariant
                    k <= tcs.len(),
                    out@.len() == k,
                    forall|i: int| 0 <= i < k ==> wire_call_of(#[trigger] out@[i], tcs@[i]@),
                decreases tcs.len() - k,
            {
                let tc = &tcs[k];
                out.push(
                    WireToolCall {
                        id: tc.id.clone(),
                        tool_type: function_text(),
                        function: WireToolCallFunction {
                            name: tc.name.clone(),
                            arguments: tc.arguments.clone(),
                        },
                    },
                );
                k = k + 1;
            }
            Some(out)
        },
        None => None,
    };
    WireMessage {
        role: msg.role.clone(),
        content: clone_opt(&msg.content),
        tool_calls,
        tool_call_id: clone_opt(&msg.tool_call_id),
    }
}

/// Whether the wire message `w` carries the message `m` (see [`to_wire_message`]).
pub open spec fn wire_message_of(w: WireMessage, m: ChatMessageView) -> bool {
    &&& w.role@ == m.role
    &&& opt_view(w.content) == m.content
    &&& opt_view(w.tool_call_id) == m.tool_call_id
    &&& (w.tool_calls is Some <==> m.tool_calls is Some)
    &&& w.tool_calls is Some ==> w.tool_calls.unwrap()@.len() == m.tool_calls.unwrap().len()
        && forall|i: int|
        0 <= i < w.tool_calls.unwrap()@.len() ==> wire_call_of(
            #[trigger] w.tool_calls.unwrap()@[i],
            m.tool_calls.unwrap()[i],
        )
}

/// The number of messages that go before the conversation in a request: one
/// system message where the system prompt is not empty.
pub open spec fn system_offset(system: Seq<char>) -> int {
    if system.len() == 0 {
        0
    } else {
        1
    }
}

/// The messages of a chat request: a `system` message holding `system` where
/// it is not empty, then each message of `messages` in wire form, in order.
pub fn request_messages(system: &str, messages: &Vec<ChatMessage>) -> (r: Vec<WireMessage>)
    ensures
        r@.len() == system_offset(system@) + messages@.len(),
        system@.len() > 0 ==> {
            &&& r@[0].role@ == role_system()
            &&& opt_view(r@[0].content) == Some(system@)
            &&& r@[0].tool_calls is None
            &&& r@[0].tool_call_id is None
        },
        forall|i: int|
            0 <= i < messages@.len() ==> wire_message_of(
                #[trigger] r@[system_offset(system@) + i],
                messages@[i]@,
            ),
{
    let mut r: Vec<WireMessage> = Vec::new();
    if !system.is_empty() {
        r.push(
            WireMessage {
                role: system_role(),
                content: Some(owned(system)),
                tool_calls: None,
                tool_call_id: None,
            },
        );
    }
    let ghost off = system_offset(system@);
    let mut k: usize = 0;
    while k < messages.len()
        invariant
            k <= messages@.len(),
            off == system_offset(system@),
            r@.len() == off + k,
            system@.len() > 0 ==> {
                &&& r@[0].role@ == role_system()
                &&& opt_view(r@[0].content) == Some(system@)
                &&& r@[0].tool_calls is None
                &&& r@[0].tool_call_id is None
            },
            forall|i: int| 0 <= i < k ==> wire_message_of(#[trigger] r@[off + i], messages@[i]@),
        decreases messages.len() - k,
    {
        let w = to_wire_message(&messages[k]);
        proof {
            let m = messages@[k as int];
            if w.tool_calls is Some {
                assert forall|i: int| 0 <= i < w.tool_calls.unwrap()@.len() implies wire_call_of(
                    #[trigger] w.tool_calls.unwrap()@[i],
                    m@.tool_calls.unwrap()[i],
                ) by {
                    assert(m@.tool_calls.unwrap()[i] == m.tool_calls.unwrap()@[i]@);
                }
            }
            assert(wire_message_of(w, m@));
        }
        let ghost before = r@;
        r.push(w);
        proof {
            assert forall|i: int| 0 <= i < k + 1 implies wire_message_of(
                #[trigger] r@[off + i],
                messages@[i]@,
            ) by {
                if i < k {
                    assert(r@[off + i] == before[off + i]);
                }
            }
        }
        k = k + 1;
    }
    r
}

/// The tools offered in a request: none where there are no tools.
pub fn offered_tools(tools: &Vec<ToolDef>) -> (r: Option<&Vec<ToolDef>>)
    ensures
        tools@.len() == 0 ==> r is None,
        tools@.len() > 0 ==> r == Some(tools),
{
    if tools.len() == 0 {
        None
    } else {
        Some(tools)
    }
}

/// The message of one choice in a chat-completion answer.
#[derive(Debug)]
pub struct ChoiceMessage {
    pub content: Option<String>,
    pub tool_calls: Vec<ToolCall>,
}

/// The response made of the first choice of an answer: its content and its tool
/// calls; no content and no tool calls where the answer has no choice.
pub fn response_of(choices: Vec<ChoiceMessage>) -> (r: LlmResponse)
    ensures
        choices@.len() == 0 ==> r.content is None && r.tool_calls@.len() == 0,
        choices@.len() > 0 ==> r.content == choices@[0].content && r.tool_calls@
            == choices@[0].tool_calls@,
{
    let mut choices = choices;
    if choices.len() == 0 {
        LlmResponse { content: None, tool_calls: Vec::new() }
    } else {
        let first = choices.remove(0);
        LlmResponse { content: first.content, tool_calls: first.tool_calls }
    }
}

/// The path of the chat-completion endpoint under an API address.
pub open spec fn completions_path() -> Seq<char> {
    seq!['/', 'c', 'h', 'a', 't', '/', 'c', 'o', 'm', 'p', 'l', 'e', 't', 'i', 'o', 'n', 's']
}

/// The address of the chat-completion endpoint of the API at `api_url`.
pub fn chat_url(api_url: &str) -> (r: String)
    ensures
        r@ == api_url@ + completions_path(),
{
    let mut r = owned(api_url);
    let p = "/chat/completions";
    push_str(&mut r, p);
    proof {
        reveal_strlit("/chat/completions");
        assert(p@ =~= completions_path());
    }
    r
}

/// The `Bearer` scheme word and its space, before a key.
pub open spec fn bearer_prefix() -> Seq<char> {
    seq!['B', 'e', 'a', 'r', 'e', 'r', ' ']
}

/// The value of the `Authorization` header for `api_key`.
pub fn bearer_header(api_key: &str) -> (r: String)
    ensures
        r@ == bearer_prefix() + api_key@,
{
    let p = "Bearer ";
    let mut r = owned(p);
    push_str(&mut r, api_key);
    proof {
        reveal_strlit("Bearer ");
        assert(p@ =~= bearer_prefix());
    }
    r
}

} // verus!
