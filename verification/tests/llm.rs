use nota::llm::{
    bearer_header, chat_url, offered_tools, request_messages, response_of, to_wire_message, ChatMessage,
    ChoiceMessage, ToolCall, ToolDef,
};
use nota::tool::ToolParams;

fn call(id: &str, name: &str, args: &str) -> ToolCall {
    ToolCall { id: id.to_string(), name: name.to_string(), arguments: args.to_string() }
}

fn user(text: &str) -> ChatMessage {
    ChatMessage { role: "user".to_string(), content: Some(text.to_string()), tool_calls: None, tool_call_id: None }
}

#[test]
fn wire_form_of_tool_calls() {
    let m = ChatMessage {
        role: "assistant".to_string(),
        content: None,
        tool_calls: Some(vec![call("c1", "file_read", "{\"path\":\"a\"}")]),
        tool_call_id: None,
    };
    let w = to_wire_message(&m);
    assert_eq!(w.role, "assistant");
    assert_eq!(w.content, None);
    let tcs = w.tool_calls.unwrap();
    assert_eq!(tcs.len(), 1);
    assert_eq!(tcs[0].id, "c1");
    assert_eq!(tcs[0].tool_type, "function");
    assert_eq!(tcs[0].function.name, "file_read");
    assert_eq!(tcs[0].function.arguments, "{\"path\":\"a\"}");
}

#[test]
fn request_puts_system_first() {
    let msgs = vec![user("hi"), user("there")];
    let r = request_messages("be nice", &msgs);
    assert_eq!(r.len(), 3);
    assert_eq!(r[0].role, "system");
    assert_eq!(r[0].content.as_deref(), Some("be nice"));
    assert_eq!(r[1].content.as_deref(), Some("hi"));
    assert_eq!(r[2].content.as_deref(), Some("there"));
}

#[test]
fn request_without_system_prompt() {
    let r = request_messages("", &vec![user("hi")]);
    assert_eq!(r.len(), 1);
    assert_eq!(r[0].role, "user");
}

#[test]
fn no_tools_offered_when_none() {
    assert!(offered_tools(&vec![]).is_none());
    let defs = vec![ToolDef {
        name: "get_version".to_string(),
        description: "v".to_string(),
        parameters: ToolParams::object(vec![], vec![]),
    }];
    assert_eq!(offered_tools(&defs).unwrap().len(), 1);
}

#[test]
fn response_from_first_choice() {
    let r = response_of(vec![
        ChoiceMessage { content: Some("first".to_string()), tool_calls: vec![call("a", "b", "{}")] },
        ChoiceMessage { content: Some("second".to_string()), tool_calls: vec![] },
    ]);
    assert_eq!(r.content.as_deref(), Some("first"));
    assert_eq!(r.tool_calls.len(), 1);
    let empty = response_of(vec![]);
    assert!(empty.content.is_none());
    assert!(empty.tool_calls.is_empty());
}

#[test]
fn endpoint_and_auth_header() {
    assert_eq!(chat_url("https://api.example.com/v1"), "https://api.example.com/v1/chat/completions");
    assert_eq!(bearer_header("sk-1"), "Bearer sk-1");
}

#[test]
fn message_clone_keeps_fields() {
    let m = ChatMessage {
        role: "tool".to_string(),
        content: Some("out".to_string()),
        tool_calls: None,
        tool_call_id: Some("c9".to_string()),
    };
    let c = m.clone();
    assert_eq!(c.role, "tool");
    assert_eq!(c.content.as_deref(), Some("out"));
    assert_eq!(c.tool_call_id.as_deref(), Some("c9"));
}
