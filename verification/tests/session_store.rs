use nota::session::{Message, Metadata, Schedule, Session, SessionError, SessionSnapshot, SessionTable};
use nota::store::{
    archive_dir, archived_db_path, db_path, extension, is_session_db, new_metadata, row_of_metadata,
    sessions_dir, single_metadata_row, snapshot_from_rows, sqlite_url, MessageRow, MetadataRow,
    RowCountError, ScheduleRow, StoreError,
};

fn meta(sid: &str, archive_at: Option<i64>) -> Metadata {
    Metadata { session_id: sid.to_string(), creator: "alice".to_string(), created_at: 100, archive_at }
}

fn msg(content: &str) -> Message {
    Message { id: 0, timestamp: 5, content: content.to_string(), role: "user".to_string(), tag: None }
}

fn table_with(ids: &[(&str, Option<i64>)]) -> SessionTable<u32> {
    let mut t = SessionTable::new();
    for (sid, at) in ids {
        t.insert(sid.to_string(), Session::new(meta(sid, *at)));
    }
    t
}

#[test]
fn set_then_get_archive_at() {
    let mut t = table_with(&[("a", None), ("b", Some(7))]);
    assert_eq!(t.get_archive_at("a"), Some(None));
    t.set_archive_at("a", Some(50)).unwrap();
    assert_eq!(t.get_archive_at("a"), Some(Some(50)));
    assert_eq!(t.get_archive_at("b"), Some(Some(7)));
    assert_eq!(t.get_archive_at("zz"), None);
    assert_eq!(t.set_archive_at("zz", None), Err(SessionError::NotFound("zz".to_string())));
    assert_eq!(SessionError::NotFound("zz".to_string()).message(), "Session not found: zz");
}

#[test]
fn new_session_is_not_due() {
    let mut t: SessionTable<u32> = SessionTable::new();
    let m = new_metadata("s1".to_string(), "bob".to_string(), 1720000000);
    assert_eq!(m.archive_at, None);
    t.insert("s1".to_string(), Session::new(m));
    assert_eq!(t.get_archive_at("s1"), Some(None));
    let listed = t.list_metadata();
    assert_eq!(listed.len(), 1);
    assert_eq!(listed[0].creator, "bob");
    assert_eq!(listed[0].created_at, 1720000000);
}

#[test]
fn expired_sessions_are_found_and_removed() {
    let mut t = table_with(&[("a", Some(10)), ("b", Some(20)), ("c", None), ("d", Some(15))]);
    let mut due = t.expired_ids(15);
    due.sort();
    assert_eq!(due, vec!["a".to_string(), "d".to_string()]);
    for sid in &due {
        assert!(t.remove(sid));
    }
    assert!(!t.remove("a"));
    let mut left: Vec<String> = t.list_metadata().into_iter().map(|m| m.session_id).collect();
    left.sort();
    assert_eq!(left, vec!["b".to_string(), "c".to_string()]);
}

#[test]
fn messages_and_handlers() {
    let mut t = table_with(&[("a", None)]);
    t.register_handler("a", 1).unwrap();
    assert_eq!(t.register_handler("x", 2), Err(SessionError::NotFound("x".to_string())));
    t.register_handler_all(&9);
    let (msgs, handlers) = t.record_message("a", msg("hello"), 42).unwrap();
    assert_eq!(msgs.len(), 1);
    assert_eq!(msgs[0].id, 42);
    assert_eq!(msgs[0].content, "hello");
    assert_eq!(handlers, vec![1, 9]);
    let (msgs, _) = t.record_message("a", msg("again"), 43).unwrap();
    assert_eq!(msgs.iter().map(|m| m.id).collect::<Vec<_>>(), vec![42, 43]);
    assert!(t.record_message("nope", msg("x"), 1).is_err());
}

#[test]
fn snapshots_are_loaded_by_id() {
    let mut t: SessionTable<u32> = SessionTable::new();
    let snap = SessionSnapshot { metadata: meta("s", Some(3)), messages: vec![msg("m")], schedules: vec![] };
    let later = SessionSnapshot { metadata: meta("s", Some(4)), messages: vec![], schedules: vec![] };
    t.load_snapshots(vec![snap, later]);
    assert_eq!(t.get_archive_at("s"), Some(Some(4)));
    assert_eq!(t.list_metadata().len(), 1);
}

#[test]
fn session_from_snapshot_keeps_content() {
    let snap = SessionSnapshot {
        metadata: meta("s", None),
        messages: vec![msg("a"), msg("b")],
        schedules: vec![Schedule {
            id: 1,
            message: "m".to_string(),
            next_run_at: 0,
            interval_seconds: None,
            status: "active".to_string(),
            created_at: 0,
        }],
    };
    let s: Session<u32> = Session::from_snapshot(snap);
    assert_eq!(s.messages.len(), 2);
    assert_eq!(s.schedules.len(), 1);
    assert!(s.handlers.is_empty());
}

#[test]
fn metadata_rows() {
    let rows = vec![MetadataRow { session_id: "s".to_string(), creator: "c".to_string(), created_at: 1, archive_at: None }];
    assert_eq!(single_metadata_row(rows).unwrap().session_id, "s");
    assert_eq!(single_metadata_row(vec![]).unwrap_err(), RowCountError { found: 0 });
    assert_eq!(
        RowCountError { found: 2 }.message(),
        "session_meta must contain exactly 1 row, found 2"
    );
    let m = meta("s", Some(9));
    let r = row_of_metadata(&m);
    assert_eq!((r.session_id.as_str(), r.created_at, r.archive_at), ("s", 100, Some(9)));
}

#[test]
fn snapshot_from_database_rows() {
    let snap = snapshot_from_rows(
        MetadataRow { session_id: "s".to_string(), creator: "c".to_string(), created_at: 1, archive_at: Some(2) },
        vec![MessageRow { id: 3, timestamp: 4, content: "x".to_string(), role: "user".to_string(), tag: Some("t".to_string()) }],
        vec![ScheduleRow {
            id: 5,
            message: "y".to_string(),
            next_run_at: 6,
            interval_seconds: Some(7),
            status: "active".to_string(),
            created_at: 8,
        }],
    );
    assert_eq!(snap.metadata.archive_at, Some(2));
    assert_eq!(snap.messages[0].id, 3);
    assert_eq!(snap.messages[0].tag.as_deref(), Some("t"));
    assert_eq!(snap.schedules[0].interval_seconds, Some(7));
    let back: MessageRow = snap.messages[0].clone().into();
    assert_eq!(back.content, "x");
}

#[test]
fn database_paths() {
    assert_eq!(sessions_dir("/home/u/.nota"), "/home/u/.nota/sessions");
    assert_eq!(archive_dir("/home/u/.nota"), "/home/u/.nota/sessions/archive");
    assert_eq!(db_path("/b", "abc"), "/b/sessions/abc.sqlite");
    assert_eq!(archived_db_path("/b/", "abc"), "/b/sessions/archive/abc.sqlite");
    assert_eq!(sqlite_url("/b/sessions/abc.sqlite"), "sqlite:///b/sessions/abc.sqlite");
}

#[test]
fn extensions_as_path_reads_them() {
    assert_eq!(extension("abc.sqlite").as_deref(), Some("sqlite"));
    assert_eq!(extension("a.tar.gz").as_deref(), Some("gz"));
    assert_eq!(extension(".hidden"), None);
    assert_eq!(extension("noext"), None);
    assert_eq!(extension("trail.").as_deref(), Some(""));
}

#[test]
fn which_files_are_session_databases() {
    assert!(is_session_db(1, true, "abc.sqlite"));
    assert!(!is_session_db(2, true, "abc.sqlite"));
    assert!(!is_session_db(1, false, "abc.sqlite"));
    assert!(!is_session_db(1, true, "abc.db"));
}

#[test]
fn store_error_messages() {
    assert_eq!(StoreError::AlreadyExists("/p".to_string()).message(), "Session database already exists: /p");
    assert_eq!(StoreError::PoolNotFound("s".to_string()).message(), "Session pool not found: s");
    assert_eq!(StoreError::NotInMemory("s".to_string()).message(), "Session not found in memory: s");
}
