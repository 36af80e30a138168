use nota::bus::{BusEvent, EventKind};
use nota::http::{
    chat_reply, check_creator, create_session_reply, dispatch, find_static_dir, get_archive_at_reply,
    list_metadata_reply, set_archive_at_reply, static_dir_candidates, user_chat_event, ChatOutcome,
    ClientCommand, CommandAction, ReplyBody, ServerEvent, WsConnection,
};
use nota::keyed::KeyedVec;
use nota::session::{Metadata, SessionError};

fn message_event(content: &str, rid: Option<&str>) -> BusEvent {
    BusEvent {
        kind: EventKind::Message,
        sender: "alice".to_string(),
        content: content.to_string(),
        timestamp: 1,
        context: String::new(),
        request_id: rid.map(|s| s.to_string()),
        parent_request_id: None,
        target: None,
    }
}

fn error_text(body: &ReplyBody) -> &str {
    match body {
        ReplyBody::Error(e) => e.as_str(),
        _ => panic!("not an error body"),
    }
}

#[test]
fn static_dir_search_order() {
    assert_eq!(static_dir_candidates("/srv"), vec!["/srv/webui", "webui/dist", "../webui/dist"]);
    assert_eq!(find_static_dir("/srv", &vec![false, true, true]).as_deref(), Some("webui/dist"));
    assert_eq!(find_static_dir("/srv", &vec![true, true, true]).as_deref(), Some("/srv/webui"));
    assert_eq!(find_static_dir("/srv", &vec![false, false, false]), None);
}

#[test]
fn creator_is_trimmed_and_required() {
    assert_eq!(check_creator("  bob ").unwrap(), "bob");
    let r = check_creator(" \t ").unwrap_err();
    assert_eq!(r.status, 400);
    assert_eq!(error_text(&r.body), "creator is required");
}

#[test]
fn session_replies() {
    let r = create_session_reply(Ok("sid-1".to_string()));
    assert_eq!(r.status, 201);
    assert!(matches!(r.body, ReplyBody::Sid(ref s) if s == "sid-1"));
    let r = create_session_reply(Err(()));
    assert_eq!((r.status, error_text(&r.body)), (500, "Failed to create session"));

    let list = vec![Metadata { session_id: "s".to_string(), creator: "c".to_string(), created_at: 1, archive_at: None }];
    let r = list_metadata_reply(list);
    assert_eq!(r.status, 200);
    assert!(matches!(r.body, ReplyBody::MetadataList(ref m) if m.len() == 1));

    let r = get_archive_at_reply(Some(Some(5)));
    assert_eq!(r.status, 200);
    assert!(matches!(r.body, ReplyBody::ArchiveAt(Some(5))));
    let r = get_archive_at_reply(None);
    assert_eq!((r.status, error_text(&r.body)), (404, "Session not found"));

    let r = set_archive_at_reply(Ok(()));
    assert_eq!(r.status, 200);
    assert!(matches!(r.body, ReplyBody::Status(ref s) if s == "ok"));
    let r = set_archive_at_reply(Err(SessionError::NotFound("x".to_string())));
    assert_eq!((r.status, error_text(&r.body)), (404, "Session not found"));
}

#[test]
fn chat_replies() {
    let r = chat_reply(ChatOutcome::Answered("hi".to_string()));
    assert_eq!(r.status, 200);
    assert!(matches!(r.body, ReplyBody::Response(ref s) if s == "hi"));
    let r = chat_reply(ChatOutcome::Dropped);
    assert_eq!((r.status, error_text(&r.body)), (500, "internal error"));
    let r = chat_reply(ChatOutcome::TimedOut);
    assert_eq!((r.status, error_text(&r.body)), (504, "timeout"));
}

#[test]
fn user_event_and_dispatch() {
    let e = user_chat_event("hello".to_string(), "r1".to_string(), 77);
    assert_eq!(e.kind, EventKind::Message);
    assert_eq!(e.sender, "user");
    assert_eq!(e.request_id.as_deref(), Some("r1"));
    assert_eq!(e.timestamp, 77);
    assert!(e.target.is_none());

    let mut pending: KeyedVec<u8> = KeyedVec::new();
    pending.insert("r1".to_string(), 1);
    pending.insert("r2".to_string(), 2);
    assert_eq!(dispatch(&mut pending, &message_event("a", Some("r2"))), Some(2));
    assert_eq!(dispatch(&mut pending, &message_event("a", Some("r2"))), None);
    assert_eq!(dispatch(&mut pending, &message_event("a", None)), None);
    assert_eq!(pending.get("r1"), Some(&1));
}

#[test]
fn ws_forwards_each_answer_once() {
    let mut c = WsConnection::new();
    let action = c.handle_command(ClientCommand::Send {
        persona: "alice".to_string(),
        content: "hi".to_string(),
        request_id: "r1".to_string(),
    });
    match action {
        CommandAction::Publish(e) => {
            assert_eq!(e.sender, "user");
            assert_eq!(e.target.as_deref(), Some("alice"));
            assert_eq!(e.request_id.as_deref(), Some("r1"));
            assert_eq!(e.content, "hi");
        }
        _ => panic!("expected publish"),
    }
    assert!(c.forward_event(message_event("other", Some("r9"))).is_none());
    match c.forward_event(message_event("hello back", Some("r1"))) {
        Some(ServerEvent::Message { content, request_id }) => {
            assert_eq!(content, "hello back");
            assert_eq!(request_id, "r1");
        }
        _ => panic!("expected the answer"),
    }
    assert!(c.forward_event(message_event("again", Some("r1"))).is_none());
}

#[test]
fn ws_permission_flow() {
    let mut c = WsConnection::new();
    let _ = c.handle_command(ClientCommand::Send {
        persona: "alice".to_string(),
        content: "read /etc".to_string(),
        request_id: "r1".to_string(),
    });
    let ask = BusEvent {
        kind: EventKind::PermissionRequest,
        sender: "alice".to_string(),
        content: "alice wants to read outside its workspace: /etc".to_string(),
        timestamp: 1,
        context: String::new(),
        request_id: Some("p1".to_string()),
        parent_request_id: Some("r1".to_string()),
        target: None,
    };
    match c.forward_event(ask) {
        Some(ServerEvent::PermissionNeeded { permission_id, prompt, request_id }) => {
            assert_eq!(permission_id, "p1");
            assert_eq!(request_id, "r1");
            assert!(prompt.starts_with("alice wants"));
        }
        _ => panic!("expected a permission request"),
    }
    match c.handle_command(ClientCommand::Permission { permission_id: "p1".to_string(), approved: true }) {
        CommandAction::ResolvePermission { permission_id, approved } => {
            assert_eq!(permission_id, "p1");
            assert!(approved);
        }
        _ => panic!("expected a resolution"),
    }
    // the request still waits for its answer
    assert!(c.forward_event(message_event("done", Some("r1"))).is_some());
}
