use nota::agent::{unknown_tool_error, AgentError, AgentRun, AgentRunner, AgentStep, MAX_ITERATIONS};
use nota::llm::{ChatMessage, LlmResponse, ToolCall};
use nota::tool::{
    build_tool_defs, clean_path, content_argument, outside_workspace, path_argument, permission_prompt,
    register_builtin_tools, schedule_result, write_result, BuiltinTool, FileReadTool, FileWriteTool,
    GetVersionTool, ScheduleTool, Tool, ToolError, ToolRegistry, ToolRegistryImpl,
};

fn call(id: &str, name: &str, args: &str) -> ToolCall {
    ToolCall { id: id.to_string(), name: name.to_string(), arguments: args.to_string() }
}

fn user(text: &str) -> ChatMessage {
    ChatMessage { role: "user".to_string(), content: Some(text.to_string()), tool_calls: None, tool_call_id: None }
}

fn builtin_registry() -> ToolRegistryImpl<BuiltinTool> {
    let mut r = ToolRegistryImpl::new();
    register_builtin_tools(&mut r, "/base/personas".to_string());
    r
}

#[test]
fn builtin_tools_are_registered_by_name() {
    let r = builtin_registry();
    let mut names: Vec<String> = r.list().iter().map(|t| t.name()).collect();
    names.sort();
    assert_eq!(names, vec!["file_read", "file_write", "get_version", "schedule"]);
    assert!(r.get("file_read").is_some());
    assert!(r.get("nope").is_none());
}

#[test]
fn registering_again_replaces() {
    let mut r = builtin_registry();
    r.register(BuiltinTool::FileRead(FileReadTool::new("/other".to_string())));
    assert_eq!(r.list().len(), 4);
    match r.get("file_read") {
        Some(BuiltinTool::FileRead(t)) => assert_eq!(t.personas_dir, "/other"),
        _ => panic!("file_read missing"),
    }
}

#[test]
fn unregister_removes_only_that_tool() {
    let mut r = builtin_registry();
    r.unregister("schedule");
    assert!(r.get("schedule").is_none());
    assert_eq!(r.list().len(), 3);
    r.unregister("schedule");
    assert_eq!(r.list().len(), 3);
}

#[test]
fn tool_descriptions_and_schemas() {
    let read = BuiltinTool::FileRead(FileReadTool::new("/p".to_string()));
    assert_eq!(read.description(), "Read a file within the persona workspace");
    let p = read.parameters();
    assert_eq!(p.schema_type, "object");
    assert_eq!(p.required, vec!["path".to_string()]);
    assert_eq!(p.properties.len(), 1);
    assert_eq!(p.properties[0].0, "path");
    assert_eq!(p.properties[0].1.prop_type, "string");
    assert_eq!(p.properties[0].1.description, "Relative path within the persona workspace");

    let write = BuiltinTool::FileWrite(FileWriteTool::new("/p".to_string()));
    assert_eq!(write.parameters().required, vec!["path".to_string(), "content".to_string()]);
    let sched = BuiltinTool::Schedule(ScheduleTool);
    assert_eq!(sched.parameters().required, vec!["message".to_string(), "trigger_at".to_string()]);
    let ver = BuiltinTool::GetVersion(GetVersionTool);
    assert_eq!(ver.description(), "Get the current Nota version");
    assert!(ver.parameters().properties.is_empty());
}

#[test]
fn workspaces_under_personas_dir() {
    assert_eq!(FileReadTool::new("/base/personas".to_string()).workspace("alice"), "/base/personas/alice");
    assert_eq!(FileWriteTool::new("/base/personas/".to_string()).workspace("bob"), "/base/personas/bob");
}

#[test]
fn tool_definitions_follow_the_list() {
    let r = builtin_registry();
    let defs = build_tool_defs(r.list());
    assert_eq!(defs.len(), 4);
    for (d, t) in defs.iter().zip(r.list().iter()) {
        assert_eq!(d.name, t.name());
        assert_eq!(d.description, t.description());
    }
    let runner = AgentRunner::new((), r);
    assert_eq!(runner.build_tool_defs().len(), 4);
}

#[test]
fn arguments_are_read_from_json() {
    assert_eq!(path_argument("{\"path\":\"notes/a.md\"}").unwrap(), "notes/a.md");
    assert_eq!(path_argument("{\"path\":3}").unwrap_err(), ToolError::MissingPath);
    assert_eq!(path_argument("not json").unwrap_err(), ToolError::MissingPath);
    assert_eq!(path_argument("[\"path\"]").unwrap_err(), ToolError::MissingPath);
    assert_eq!(content_argument("{\"path\":\"a\",\"content\":\"hi\\n\"}").unwrap(), "hi\n");
    assert_eq!(content_argument("{\"path\":\"a\"}").unwrap_err(), ToolError::MissingContent);
}

#[test]
fn tool_error_messages() {
    assert_eq!(ToolError::MissingPath.message(), "missing 'path' argument");
    assert_eq!(ToolError::MissingContent.message(), "missing 'content' argument");
    assert_eq!(ToolError::PermissionDenied.message(), "permission denied");
}

#[test]
fn workspace_checks_and_prompts() {
    assert!(!outside_workspace("/ws/alice/a.md", "/ws/alice"));
    assert!(!outside_workspace("/ws/alice", "/ws/alice"));
    assert!(outside_workspace("/ws/bob/a.md", "/ws/alice"));
    assert!(outside_workspace("/ws/alice/../bob/a.md", "/ws/alice"));
    assert!(!outside_workspace("/ws/alice/sub/../a.md", "/ws/alice"));
    assert!(outside_workspace("/ws/alice/sub/../../a.md", "/ws/alice"));
    assert_eq!(
        permission_prompt("alice", "read", "/etc/passwd"),
        "alice wants to read outside its workspace: /etc/passwd"
    );
    assert_eq!(clean_path("/ws//alice/./notes/a.md"), "/ws/alice/notes/a.md");
    assert_eq!(clean_path("/ws/alice/../bob"), "/ws/alice/../bob");
}

#[test]
fn tool_results() {
    assert_eq!(write_result("hello"), "ok: wrote 5 bytes");
    assert_eq!(write_result("é"), "ok: wrote 2 bytes");
    assert_eq!(schedule_result(), "schedule accepted (scheduler not yet implemented)");
}

#[test]
fn unknown_tools() {
    assert_eq!(unknown_tool_error("nope"), "unknown tool: nope");
    let runner = AgentRunner::new((), builtin_registry());
    assert!(runner.tool_for(&call("1", "get_version", "{}")).is_ok());
    assert_eq!(runner.tool_for(&call("1", "nope", "{}")).unwrap_err(), "unknown tool: nope");
}

#[test]
fn agent_run_with_a_tool_call() {
    let mut run = AgentRun::new(&vec![user("what version?")]);
    assert!(run.start_iteration().is_ok());
    let step = run.on_response(LlmResponse { content: None, tool_calls: vec![call("c1", "get_version", "{}")] });
    let calls = match step {
        AgentStep::RunTools(calls) => calls,
        AgentStep::Finished(_) => panic!("expected tool calls"),
    };
    assert_eq!(calls.len(), 1);
    run.on_tool_result(&calls[0], Ok("0.1.0".to_string()));
    assert_eq!(run.conversation().len(), 3);
    assert!(run.start_iteration().is_ok());
    let step = run.on_response(LlmResponse { content: Some("It is 0.1.0".to_string()), tool_calls: vec![] });
    match step {
        AgentStep::Finished(msgs) => {
            assert_eq!(msgs.len(), 3);
            assert_eq!(msgs[0].role, "assistant");
            assert!(msgs[0].content.is_none());
            assert_eq!(msgs[0].tool_calls.as_ref().unwrap()[0].id, "c1");
            assert_eq!(msgs[1].role, "tool");
            assert_eq!(msgs[1].content.as_deref(), Some("0.1.0"));
            assert_eq!(msgs[1].tool_call_id.as_deref(), Some("c1"));
            assert_eq!(msgs[2].role, "assistant");
            assert_eq!(msgs[2].content.as_deref(), Some("It is 0.1.0"));
        }
        AgentStep::RunTools(_) => panic!("expected the end"),
    }
}

#[test]
fn agent_run_tool_error_and_empty_answer() {
    let mut run = AgentRun::new(&vec![]);
    run.start_iteration().unwrap();
    let c = call("c2", "file_read", "{}");
    let _ = run.on_response(LlmResponse { content: None, tool_calls: vec![c.clone()] });
    run.on_tool_result(&c, Err("missing 'path' argument".to_string()));
    run.start_iteration().unwrap();
    match run.on_response(LlmResponse { content: None, tool_calls: vec![] }) {
        AgentStep::Finished(msgs) => {
            assert_eq!(msgs.len(), 2);
            assert_eq!(msgs[1].content.as_deref(), Some("tool error: missing 'path' argument"));
        }
        AgentStep::RunTools(_) => panic!("expected the end"),
    }
}

#[test]
fn agent_run_stops_after_budget() {
    let mut run = AgentRun::new(&vec![user("loop")]);
    for _ in 0..MAX_ITERATIONS {
        assert!(run.start_iteration().is_ok());
        let _ = run.on_response(LlmResponse { content: None, tool_calls: vec![call("x", "get_version", "{}")] });
    }
    assert_eq!(run.start_iteration(), Err(AgentError::MaxIterationsExceeded));
    assert_eq!(AgentError::MaxIterationsExceeded.message(), "agent loop exceeded max iterations (16)");
}

fn replace_and_drop<R: ToolRegistry<BuiltinTool>>(r: &mut R) -> usize {
    r.register(BuiltinTool::GetVersion(GetVersionTool));
    r.unregister("file_write");
    assert!(r.get("file_write").is_none());
    r.list().len()
}

#[test]
fn registry_through_the_trait() {
    let mut r = builtin_registry();
    assert_eq!(replace_and_drop(&mut r), 3);
    assert!(ToolRegistry::get(&r, "get_version").is_some());
}

#[test]
fn relative_paths_stay_inside() {
    let target = clean_path(&nota::text::path_join("/ws/alice", "notes/./today.md"));
    assert_eq!(target, "/ws/alice/notes/today.md");
    assert!(!outside_workspace(&target, "/ws/alice"));
    let escaping = clean_path(&nota::text::path_join("/ws/alice", "../bob/x.md"));
    assert!(outside_workspace(&escaping, "/ws/alice"));
}
