//! The agent loop: ask the model, run the tools it calls, feed the results back,
//! until the model answers without tool calls or the iteration budget runs out.
//!
//! The loop alternates calls of the model and of tools with decisions; the
//! decisions stand here as an [`AgentRun`], which takes each outcome and says
//! what comes next.
use vstd::prelude::*;

use crate::llm::{
    assistant_role, call_views, clone_calls, clone_messages, message_views, opt_view, role_assistant,
    role_tool, tool_role, ChatMessage, ChatMessageView, LlmResponse, ToolCall, ToolCallView,
    ToolDef,
};
use crate::text::{push_chars, push_str, string_of};
use crate::tool::{build_tool_defs, def_of, Tool, ToolRegistryImpl};

verus! {

/// How many times the model may be asked within one run.
pub const MAX_ITERATIONS: usize = 16;

/// Runs the agent loop with a model client and a tool registry.
pub struct AgentRunner<L, R> {
    pub llm: L,
    pub registry: R,
}

impl<L, R> AgentRunner<L, R> {
    pub fn new(llm: L, registry: R) -> (r: Self)
        ensures
            r.llm == llm,
            r.registry == registry,
    {
        AgentRunner { llm, registry }
    }
}

impl<L, T: Tool> AgentRunner<L, ToolRegistryImpl<T>> {
    /// The definitions of every registered tool, once each.
    pub fn build_tool_defs(&self) -> (r: Vec<ToolDef>)
        requires
            self.registry.wf(),
        ensures
            r@.len() == self.registry.list_spec().len(),
            forall|i: int|
                0 <= i < r@.len() ==> def_of((#[trigger] r@[i])@, self.registry.list_spec()[i]),
    {
        build_tool_defs(self.registry.list())
    }

    /// The registered tool that `call` names, or the error text for a tool that
    /// is not registered.
    pub fn tool_for(&self, call: &ToolCall) -> (r: Result<&T, String>)
        requires
            self.registry.wf(),
        ensures
            r matches Ok(t) ==> self.registry@.contains_key(call.name@) && *t
                == self.registry@[call.name@],
            r matches Err(e) ==> !self.registry@.contains_key(call.name@) && e@
                == unknown_tool_text(call.name@),
    {
        match self.registry.get(call.name.as_str()) {
            Some(t) => Ok(t),
            None => Err(unknown_tool_error(call.name.as_str())),
        }
    }
}

/// The error text for a call of the tool `name` that is not registered.
pub open spec fn unknown_tool_text(name: Seq<char>) -> Seq<char> {
    "unknown tool: "@ + name
}

/// The error text for a call of the tool `name` that is not registered (see
/// [`unknown_tool_text`]).
pub fn unknown_tool_error(name: &str) -> (r: String)
    ensures
        r@ == unknown_tool_text(name@),
{
    let mut r = crate::text::owned("unknown tool: ");
    push_str(&mut r, name);
    r
}

/// Why a run failed.
#[derive(Debug, PartialEq, Eq, Structural)]
pub enum AgentError {
    /// The model was asked [`MAX_ITERATIONS`] times and still called tools.
    MaxIterationsExceeded,
}

impl AgentError {
    /// The error message.
    pub fn message(&self) -> (r: String)
        ensures
            r@ == "agent loop exceeded max iterations (16)"@,
    {
        crate::text::owned("agent loop exceeded max iterations (16)")
    }
}

/// What the run does next.
#[derive(Debug)]
pub enum AgentStep {
    /// Run these tools, in order, and report each outcome.
    RunTools(Vec<ToolCall>),
    /// The run is over; these are the messages it added.
    Finished(Vec<ChatMessage>),
}

/// The message with which the model calls tools.
pub open spec fn tool_calls_message(calls: Seq<ToolCallView>) -> ChatMessageView {
    ChatMessageView {
        role: role_assistant(),
        content: None,
        tool_calls: Some(calls),
        tool_call_id: None,
    }
}

/// The message with the model's final answer.
pub open spec fn answer_message(content: Seq<char>) -> ChatMessageView {
    ChatMessageView {
        role: role_assistant(),
        content: Some(content),
        tool_calls: None,
        tool_call_id: None,
    }
}

/// The text of a tool outcome: the output, or `tool error: ` and the error.
pub open spec fn tool_outcome_text(outcome: Result<Seq<char>, Seq<char>>) -> Seq<char> {
    match outcome {
        Ok(out) => out,
        Err(e) => "tool error: "@ + e,
    }
}

/// The message that reports the outcome of the tool call `id`.
pub open spec fn tool_result_message(id: Seq<char>, text: Seq<char>) -> ChatMessageView {
    ChatMessageView {
        role: role_tool(),
        content: Some(text),
        tool_calls: None,
        tool_call_id: Some(id),
    }
}

/// The view of a tool outcome.
pub open spec fn outcome_view(o: Result<String, String>) -> Result<Seq<char>, Seq<char>> {
    match o {
        Ok(s) => Ok(s@),
        Err(e) => Err(e@),
    }
}

/// One run of the agent loop.
pub struct AgentRun {
    conversation: Vec<ChatMessage>,
    new_messages: Vec<ChatMessage>,
    iterations: usize,
    initial: Ghost<Seq<ChatMessageView>>,
}

impl AgentRun {
    /// The messages the run started from.
    pub closed spec fn initial(&self) -> Seq<ChatMessageView> {
        self.initial@
    }

    /// The messages the run has added so far.
    pub closed spec fn added(&self) -> Seq<ChatMessageView> {
        message_views(self.new_messages@)
    }

    /// How many times the model has been asked.
    pub closed spec fn asked(&self) -> nat {
        self.iterations as nat
    }

    /// The conversation sent to the model: the initial messages, then the added ones.
    pub closed spec fn conversation_spec(&self) -> Seq<ChatMessageView> {
        message_views(self.conversation@)
    }

    /// The conversation is the initial messages followed by the added ones, and
    /// the model was asked at most [`MAX_ITERATIONS`] times.
    pub closed spec fn wf(&self) -> bool {
        &&& message_views(self.conversation@) == self.initial@ + message_views(self.new_messages@)
        &&& self.iterations <= MAX_ITERATIONS
    }

    /// The conversation sent to the model is always the messages the run
    /// started from followed by the ones it added, and the model is asked at
    /// most [`MAX_ITERATIONS`] times.
    pub proof fn lemma_wf(&self)
        requires
            self.wf(),
        ensures
            self.conversation_spec() == self.initial() + self.added(),
            self.asked() <= MAX_ITERATIONS,
    {
    }

    /// A run that starts from `messages`.
    pub fn new(messages: &Vec<ChatMessage>) -> (r: Self)
        ensures
            r.wf(),
            r.initial() == message_views(messages@),
            r.added() == Seq::<ChatMessageView>::empty(),
            r.asked() == 0,
    {
        let conversation = clone_messages(messages);
        let r = AgentRun {
            conversation,
            new_messages: Vec::new(),
            iterations: 0,
            initial: Ghost(message_views(messages@)),
        };
        assert(message_views(r.new_messages@) =~= Seq::<ChatMessageView>::empty());
        assert(message_views(r.conversation@) =~= r.initial@ + message_views(r.new_messages@));
        r
    }

    /// The conversation to send to the model.
    pub fn conversation(&self) -> (r: &Vec<ChatMessage>)
        ensures
            message_views(r@) == self.conversation_spec(),
    {
        &self.conversation
    }

    /// Counts one more question to the model; fails once the model has been
    /// asked [`MAX_ITERATIONS`] times.
    pub fn start_iteration(&mut self) -> (r: Result<(), AgentError>)
        requires
            old(self).wf(),
        ensures
            final(self).wf(),
            final(self).initial() == old(self).initial(),
            final(self).added() == old(self).added(),
            final(self).conversation_spec() == old(self).conversation_spec(),
            r is Err <==> old(self).asked() == MAX_ITERATIONS,
            r is Err ==> final(self).asked() == old(self).asked(),
            r is Ok ==> final(self).asked() == old(self).asked() + 1,
    {
        if self.iterations == MAX_ITERATIONS {
            Err(AgentError::MaxIterationsExceeded)
        } else {
            self.iterations = self.iterations + 1;
            Ok(())
        }
    }

    /// Takes the model's answer: tool calls are recorded and handed out to run;
    /// an answer without tool calls ends the run with the added messages, the
    /// answer's text last when there is one.
    pub fn on_response(&mut self, resp: LlmResponse) -> (step: AgentStep)
        requires
            old(self).wf(),
        ensures
            final(self).wf(),
            final(self).initial() == old(self).initial(),
            final(self).asked() == old(self).asked(),
            resp.tool_calls@.len() > 0 ==> final(self).added() == old(self).added().push(
                tool_calls_message(call_views(resp.tool_calls@)),
            ),
            resp.tool_calls@.len() > 0 ==> (step matches AgentStep::RunTools(calls) && call_views(
                calls@,
            ) == call_views(resp.tool_calls@)),
            resp.tool_calls@.len() == 0 ==> (step matches AgentStep::Finished(msgs) && message_views(
                msgs@,
            ) == match resp.content {
                Some(c) => old(self).added().push(answer_message(c@)),
                None => old(self).added(),
            }),
    {
        if resp.tool_calls.len() > 0 {
            let calls = clone_calls(&resp.tool_calls);
            let msg = ChatMessage {
                role: assistant_role(),
                content: None,
                tool_calls: Some(resp.tool_calls),
                tool_call_id: None,
            };
            let copy = msg.clone();
            let ghost conv0 = message_views(self.conversation@);
            let ghost new0 = message_views(self.new_messages@);
            self.conversation.push(copy);
            self.new_messages.push(msg);
            proof {
                assert(message_views(self.conversation@) =~= conv0.push(msg@));
                assert(message_views(self.new_messages@) =~= new0.push(msg@));
                assert(msg@ == tool_calls_message(call_views(resp.tool_calls@)));
            }
            AgentStep::RunTools(calls)
        } else {
            let mut out = clone_messages(&self.new_messages);
            match resp.content {
                Some(c) => {
                    let ghost c_view = c@;
                    let ghost out0 = message_views(out@);
                    let m = ChatMessage {
                        role: assistant_role(),
                        content: Some(c),
                        tool_calls: None,
                        tool_call_id: None,
                    };
                    out.push(m);
                    proof {
                        assert(message_views(out@) =~= out0.push(answer_message(c_view)));
                    }
                },
                None => {},
            }
            AgentStep::Finished(out)
        }
    }

    /// Records the outcome of the tool call `call`: its output, or the error
    /// after `tool error: `.
    pub fn on_tool_result(&mut self, call: &ToolCall, outcome: Result<String, String>)
        requires
            old(self).wf(),
        ensures
            final(self).wf(),
            final(self).initial() == old(self).initial(),
            final(self).asked() == old(self).asked(),
            final(self).added() == old(self).added().push(
                tool_result_message(call.id@, tool_outcome_text(outcome_view(outcome))),
            ),
    {
        let ghost ov = outcome_view(outcome);
        let text = match outcome {
            Ok(out) => out,
            Err(e) => {
                let mut t = crate::text::owned("tool error: ");
                push_str(&mut t, e.as_str());
                t
            },
        };
        assert(text@ == tool_outcome_text(ov));
        let msg = ChatMessage {
            role: tool_role(),
            content: Some(text),
            tool_calls: None,
            tool_call_id: Some(call.id.clone()),
        };
        let copy = msg.clone();
        let ghost conv0 = message_views(self.conversation@);
        let ghost new0 = message_views(self.new_messages@);
        self.conversation.push(copy);
        self.new_messages.push(msg);
        proof {
            assert(message_views(self.conversation@) =~= conv0.push(msg@));
            assert(message_views(self.new_messages@) =~= new0.push(msg@));
        }
    }
}

} // verus!
