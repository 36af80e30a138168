use nota::schedule_md::{
    format_line, format_line_with, message_saves_back, parse_line, parse_schedules, render_schedules,
    schedules_save_back,
};
use nota::session::Schedule;

fn schedule(id: i64, message: &str, next_run_at: i64, interval: Option<i64>, status: &str) -> Schedule {
    Schedule {
        id,
        message: message.to_string(),
        next_run_at,
        interval_seconds: interval,
        status: status.to_string(),
        created_at: 0,
    }
}

#[test]
fn test_roundtrip() {
    let schedules = vec![
        Schedule {
            id: 1,
            message: "Buy groceries".to_string(),
            next_run_at: 1720000000,
            interval_seconds: Some(86400),
            status: "active".to_string(),
            created_at: 0,
        },
        Schedule {
            id: 2,
            message: "Submit report".to_string(),
            next_run_at: 1720000000,
            interval_seconds: None,
            status: "completed".to_string(),
            created_at: 0,
        },
        Schedule {
            id: 3,
            message: "Review code".to_string(),
            next_run_at: 1720000000,
            interval_seconds: Some(3600),
            status: "paused".to_string(),
            created_at: 0,
        },
    ];

    let md = schedules.iter().map(format_line).collect::<Vec<_>>();
    let parsed: Vec<Schedule> = md.iter().map(|s| parse_line(s, 1).unwrap()).collect();

    assert_eq!(parsed[0].message, "Buy groceries");
    assert_eq!(parsed[0].status, "active");
    assert_eq!(parsed[0].interval_seconds, Some(86400));

    assert_eq!(parsed[1].message, "Submit report");
    assert_eq!(parsed[1].status, "completed");

    assert_eq!(parsed[2].message, "Review code");
    assert_eq!(parsed[2].status, "paused");
    assert_eq!(parsed[2].interval_seconds, Some(3600));
}

#[test]
fn format_line_active_with_interval() {
    let s = schedule(1, "Buy groceries", 1720000000, Some(86400), "active");
    assert_eq!(format_line(&s), "- [ ] Buy groceries \u{1F4C5}2024-07-03T09:46:40 \u{1F501}86400");
}

#[test]
fn format_line_paused_marks_message() {
    let s = schedule(3, "Review code", 1720000000, Some(3600), "paused");
    assert_eq!(format_line(&s), "- [ ] \u{23F8}Review code \u{1F4C5}2024-07-03T09:46:40 \u{1F501}3600");
}

#[test]
fn format_line_completed_has_done_time() {
    let s = schedule(2, "Submit report", 1720000000, None, "completed");
    let line = format_line(&s);
    let prefix = "- [x] Submit report \u{1F4C5}2024-07-03T09:46:40 \u{2705}";
    assert!(line.starts_with(prefix));
    // the completion time is the current time, in the same seconds format
    assert_eq!(line.chars().count(), prefix.chars().count() + "2024-07-03T09:46:40".len());
}

#[test]
fn format_line_with_given_texts() {
    let s = schedule(2, "Submit report", 0, Some(60), "completed");
    assert_eq!(
        format_line_with(&s, "1970-01-01T00:00:00", "2024-07-04T10:00:00"),
        "- [x] Submit report \u{1F4C5}1970-01-01T00:00:00 \u{1F501}60 \u{2705}2024-07-04T10:00:00"
    );
}

#[test]
fn format_line_negative_interval() {
    let s = schedule(1, "x", 0, Some(-5), "active");
    assert_eq!(format_line(&s), "- [ ] x \u{1F4C5}1970-01-01T00:00:00 \u{1F501}-5");
}

#[test]
fn parse_line_rfc3339_date() {
    let s = parse_line("- [ ] Call mom \u{1F4C5}2024-07-03T10:00:00Z", 7).unwrap();
    assert_eq!(s.id, 7);
    assert_eq!(s.message, "Call mom");
    assert_eq!(s.next_run_at, 1720000800);
    assert_eq!(s.interval_seconds, None);
    assert_eq!(s.status, "active");
    assert_eq!(s.created_at, 0);
}

#[test]
fn parse_line_rfc3339_with_offset() {
    let s = parse_line("- [ ] Call mom \u{1F4C5}2024-07-03T12:00:00+02:00", 1).unwrap();
    assert_eq!(s.next_run_at, 1720000800);
}

#[test]
fn parse_line_plain_date() {
    let s = parse_line("- [ ] Buy milk \u{1F4C5}2024-07-03 \u{1F501}86400", 2).unwrap();
    assert_eq!(s.message, "Buy milk");
    assert_eq!(s.next_run_at, 1719964800);
    assert_eq!(s.interval_seconds, Some(86400));
}

#[test]
fn parse_line_datetime_without_offset_gives_zero() {
    // the seconds format without an offset is not read back as a time
    let s = parse_line("- [ ] Buy milk \u{1F4C5}2024-07-03T09:46:40", 2).unwrap();
    assert_eq!(s.next_run_at, 0);
}

#[test]
fn parse_line_unreadable_date_gives_zero() {
    let s = parse_line("- [ ] Buy milk \u{1F4C5}tomorrow", 2).unwrap();
    assert_eq!(s.message, "Buy milk");
    assert_eq!(s.next_run_at, 0);
}

#[test]
fn parse_line_completed() {
    let s = parse_line("- [x] Done thing \u{1F4C5}2024-07-03 \u{2705}2024-07-04T00:00:00", 4).unwrap();
    assert_eq!(s.status, "completed");
    assert_eq!(s.message, "Done thing");
    assert_eq!(s.next_run_at, 1719964800);
}

#[test]
fn parse_line_paused_and_running_marks() {
    let s = parse_line("- [ ] \u{23F8}Review code \u{1F501}3600", 1).unwrap();
    assert_eq!(s.status, "paused");
    assert_eq!(s.message, "Review code");
    assert_eq!(s.interval_seconds, Some(3600));
    assert_eq!(s.next_run_at, 0);

    let r = parse_line("- [ ] \u{1F3C3} Running task", 1).unwrap();
    assert_eq!(r.status, "active");
    assert_eq!(r.message, "Running task");
}

#[test]
fn parse_line_message_only() {
    let s = parse_line("  - [ ]   Just a note  ", 9).unwrap();
    assert_eq!(s.message, "Just a note");
    assert_eq!(s.next_run_at, 0);
    assert_eq!(s.interval_seconds, None);
}

#[test]
fn parse_line_bad_interval_is_ignored() {
    let s = parse_line("- [ ] Ping \u{1F501}often", 1).unwrap();
    assert_eq!(s.message, "Ping");
    assert_eq!(s.interval_seconds, None);
}

#[test]
fn parse_line_rejects_non_tasks() {
    assert!(parse_line("hello", 1).is_none());
    assert!(parse_line("- [?] odd box", 1).is_none());
    assert!(parse_line("- [ ] \u{1F4C5}2024-07-03", 1).is_none());
    assert!(parse_line("- [ ]", 1).is_none());
    assert!(parse_line("", 1).is_none());
}

#[test]
fn render_empty_list() {
    assert_eq!(render_schedules(&vec![]), "# Tasks\n\n");
}

#[test]
fn render_one_schedule() {
    let s = schedule(1, "Buy groceries", 1720000000, Some(86400), "active");
    assert_eq!(
        render_schedules(&vec![s]),
        "# Tasks\n\n- [ ] Buy groceries \u{1F4C5}2024-07-03T09:46:40 \u{1F501}86400\n"
    );
}

#[test]
fn parse_schedules_numbers_tasks_and_skips_the_rest() {
    let text = "# Tasks\n\n- [ ] A \u{1F4C5}2024-07-03\nnot a task\n\n- [x] B\n  # a note\n- [ ] \u{23F8}C\n";
    let ss = parse_schedules(text);
    assert_eq!(ss.len(), 3);
    assert_eq!((ss[0].id, ss[0].message.as_str(), ss[0].status.as_str()), (1, "A", "active"));
    assert_eq!(ss[0].next_run_at, 1719964800);
    assert_eq!((ss[1].id, ss[1].message.as_str(), ss[1].status.as_str()), (2, "B", "completed"));
    assert_eq!((ss[2].id, ss[2].message.as_str(), ss[2].status.as_str()), (3, "C", "paused"));
}

#[test]
fn render_then_parse_keeps_tasks() {
    let ss = vec![
        schedule(10, "Buy groceries", 1719964800, Some(86400), "active"),
        schedule(20, "Review code", 1719964800, None, "paused"),
        schedule(30, "Submit report", 1719964800, Some(3600), "completed"),
    ];
    let back = parse_schedules(&render_schedules(&ss));
    assert_eq!(back.len(), 3);
    for (i, (a, b)) in ss.iter().zip(back.iter()).enumerate() {
        assert_eq!(b.id, i as i64 + 1);
        assert_eq!(a.message, b.message);
        assert_eq!(a.status, b.status);
        assert_eq!(a.interval_seconds, b.interval_seconds);
        assert_eq!(b.created_at, 0);
    }
}

#[test]
fn parse_line_marks_in_unusual_orders() {
    // a repeat mark before the date mark stays in the message
    let a = parse_line("- [ ] a \u{1F501}60 b \u{1F4C5}2024-07-03", 1).unwrap();
    assert_eq!(a.message, "a \u{1F501}60 b");
    assert_eq!(a.interval_seconds, None);
    assert_eq!(a.next_run_at, 1719964800);

    // a second date mark starts a new, empty message
    assert!(parse_line("- [ ] a \u{1F4C5}2024-07-03 \u{1F4C5}2024-07-04", 1).is_none());

    // a completion mark before the date mark stays in the message
    let c = parse_line("- [ ] a \u{2705}x \u{1F4C5}2024-07-03", 1).unwrap();
    assert_eq!(c.message, "a \u{2705}x");

    // without a date mark, the text before the repeat mark is the message
    let d = parse_line("- [ ] a \u{2705}2024 \u{1F501}5", 1).unwrap();
    assert_eq!(d.message, "a \u{2705}2024");
    assert_eq!(d.interval_seconds, Some(5));

    // the interval runs to the next space
    let k = parse_line("- [ ] x \u{1F501}60\u{1F501}70", 1).unwrap();
    assert_eq!(k.message, "x");
    assert_eq!(k.interval_seconds, None);
    let h = parse_line("- [ ] x \u{1F501} +60 \u{1F4C5} 2024-07-03", 1).unwrap();
    assert_eq!(h.interval_seconds, None);
    assert_eq!(h.message, "x \u{1F501} +60");
}

#[test]
fn parse_line_boxes_and_leading_marks() {
    let e = parse_line("- [x]done", 1).unwrap();
    assert_eq!((e.message.as_str(), e.status.as_str()), ("done", "completed"));

    let f = parse_line("- [ ] \u{23F8} \u{1F3C3} x", 1).unwrap();
    assert_eq!((f.message.as_str(), f.status.as_str()), ("\u{1F3C3} x", "paused"));

    let g = parse_line("- [ ] \u{1F3C3}\u{23F8}x", 1).unwrap();
    assert_eq!((g.message.as_str(), g.status.as_str()), ("\u{23F8}x", "active"));

    let j = parse_line("- [ ] y \u{1F4C5}2024-07-03\u{2705}2024-07-04", 1).unwrap();
    assert_eq!(j.message, "y");
    assert_eq!(j.next_run_at, 1719964800);

    let p = parse_line("- [ ] z \u{1F501}+60", 1).unwrap();
    assert_eq!(p.interval_seconds, Some(60));
}

#[test]
fn which_schedules_save_back() {
    assert!(message_saves_back("Buy groceries"));
    assert!(!message_saves_back(""));
    assert!(!message_saves_back(" padded"));
    assert!(!message_saves_back("two\nlines"));
    assert!(!message_saves_back("\u{23F8}paused mark"));
    assert!(!message_saves_back("a \u{1F4C5} b"));
    let good = vec![schedule(1, "A", 0, None, "active"), schedule(2, "B", 5, Some(9), "completed")];
    assert!(schedules_save_back(&good));
    let back = parse_schedules(&render_schedules(&good));
    assert_eq!(back.len(), 2);
    assert_eq!((back[1].id, back[1].message.as_str(), back[1].status.as_str()), (2, "B", "completed"));
    let bad = vec![schedule(1, "A\nB", 0, None, "active")];
    assert!(!schedules_save_back(&bad));
    assert_eq!(parse_schedules(&render_schedules(&bad)).len(), 1);
}
