use nota::file_access::{AccessStage, AccessStep, FileAccess};
use nota::tool::ToolError;

fn read(resolved: &str) -> FileAccess {
    FileAccess::new(false, "alice", resolved, "/ws/alice")
}

fn write(resolved: &str) -> FileAccess {
    FileAccess::new(true, "alice", resolved, "/ws/alice")
}

#[test]
fn read_inside_goes_straight_to_the_file() {
    let mut a = read("/ws/alice/notes.md");
    match a.on_resolved(Some("/ws/alice/notes.md".to_string())) {
        AccessStep::Access(p) => assert_eq!(p, "/ws/alice/notes.md"),
        other => panic!("unexpected {other:?}"),
    }
}

#[test]
fn read_outside_asks_and_honours_the_answer() {
    let mut a = read("/ws/alice/../bob/x.md");
    match a.on_resolved(Some("/ws/bob/x.md".to_string())) {
        AccessStep::Ask(q) => assert_eq!(q, "alice wants to read outside its workspace: /ws/alice/../bob/x.md"),
        other => panic!("unexpected {other:?}"),
    }
    match a.on_answer(true) {
        AccessStep::Access(p) => assert_eq!(p, "/ws/bob/x.md"),
        other => panic!("unexpected {other:?}"),
    }

    let mut b = read("/etc/passwd");
    let _ = b.on_resolved(Some("/etc/passwd".to_string()));
    match b.on_answer(false) {
        AccessStep::Fail(e) => assert_eq!(e, ToolError::PermissionDenied),
        other => panic!("unexpected {other:?}"),
    }
}

#[test]
fn read_of_a_missing_path() {
    // inside the workspace: resolve again, and fail where it still does not resolve
    let mut a = read("/ws/alice/missing.md");
    assert!(matches!(a.on_resolved(None), AccessStep::Resolve));
    assert!(matches!(a.on_resolved(None), AccessStep::Unresolved));

    // outside: ask first, then resolve again, then ask again where it lies outside
    let mut b = read("/tmp/x");
    assert!(matches!(b.on_resolved(None), AccessStep::Ask(_)));
    assert!(matches!(b.on_answer(true), AccessStep::Resolve));
    assert!(matches!(b.on_resolved(Some("/tmp/x".to_string())), AccessStep::Ask(_)));
    assert!(matches!(b.on_answer(true), AccessStep::Access(ref p) if p == "/tmp/x"));
}

#[test]
fn write_targets() {
    let mut a = write("/ws/alice//new/./file.md");
    match a.on_resolved(None) {
        AccessStep::Access(p) => assert_eq!(p, "/ws/alice/new/file.md"),
        other => panic!("unexpected {other:?}"),
    }
    // a `..` component that climbs out of the workspace: the user is asked
    let mut c = write("/ws/alice/../bob.md");
    match c.on_resolved(None) {
        AccessStep::Ask(q) => assert_eq!(q, "alice wants to write outside its workspace: /ws/alice/../bob.md"),
        other => panic!("unexpected {other:?}"),
    }
    assert!(matches!(c.on_answer(false), AccessStep::Fail(ToolError::PermissionDenied)));
    // a `..` component that stays within the workspace: no question
    let mut e = write("/ws/alice/sub/../new.md");
    assert!(matches!(e.on_resolved(None), AccessStep::Access(ref p) if p == "/ws/alice/sub/../new.md"));
    let mut d = write("/ws/alice/new/./x.md");
    assert!(matches!(d.on_resolved(None), AccessStep::Access(ref p) if p == "/ws/alice/new/x.md"));

    let mut b = write("/ws/bob/x.md");
    match b.on_resolved(None) {
        AccessStep::Ask(q) => assert_eq!(q, "alice wants to write outside its workspace: /ws/bob/x.md"),
        other => panic!("unexpected {other:?}"),
    }
    match b.on_answer(true) {
        AccessStep::Access(p) => assert_eq!(p, "/ws/bob/x.md"),
        other => panic!("unexpected {other:?}"),
    }
    let _ = AccessStage::Done;
}
