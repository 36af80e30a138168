//! The markdown task-list format of schedules:
//!
//! ```text
//! - [ ] Buy groceries 📅2024-07-03T09:46:40 🔁86400
//! - [x] Submit report 📅2024-07-03T09:46:40 ✅2024-07-04T10:00:00
//! - [ ] ⏸Review code 📅2024-07-03T09:46:40 🔁3600
//! ```
use vstd::prelude::*;

use crate::clock::{
    timestamp_text, datetime_timestamp, format_timestamp, iso_seconds_format, naive_date_timestamp,
    rfc3339_timestamp, spec_datetime_timestamp, spec_format_timestamp, spec_naive_date_timestamp,
    spec_rfc3339_timestamp, utc_now_timestamp, ymd_format,
};
use crate::session::{Schedule, ScheduleView, schedule_views};
use crate::text::{
    find_from, has_char, is_ws, owned, same_chars, chars_of, decimal, decimal_chars, find, find3, find3_from, find_any3_from, find_char_from,
    lemma_find, lemma_find3_from, lemma_find_from, lemma_skip_ws, parse_i64, parse_i64_spec,
    push_char, push_chars, push_str, skip_ws, string_of, sub_chars, trim, trim_chars, trim_start,
    trim_start_chars,
};

verus! {

/// Marks the next run time.
pub const CALENDAR: char = '\u{1F4C5}';

/// Marks the repeat interval in seconds.
pub const REPEAT: char = '\u{1F501}';

/// Marks the completion time.
pub const DONE_MARK: char = '\u{2705}';

/// Marks a paused schedule.
pub const PAUSE_MARK: char = '\u{23F8}';

/// Marks a running schedule (dropped when reading).
pub const RUNNING_MARK: char = '\u{1F3C3}';

/// The first line of a schedule file.
pub open spec fn header_spec() -> Seq<char> {
    seq!['#', ' ', 'T', 'a', 's', 'k', 's', '\n', '\n']
}

pub open spec fn status_active() -> Seq<char> {
    seq!['a', 'c', 't', 'i', 'v', 'e']
}

pub open spec fn status_paused() -> Seq<char> {
    seq!['p', 'a', 'u', 's', 'e', 'd']
}

pub open spec fn status_completed() -> Seq<char> {
    seq!['c', 'o', 'm', 'p', 'l', 'e', 't', 'e', 'd']
}

// ───────────────────────── reading ─────────────────────────

/// The first index at or after `i` that does not hold `c` (or `s.len()`).
pub open spec fn skip_char(s: Seq<char>, c: char, i: int) -> int
    decreases s.len() - i,
{
    if 0 <= i < s.len() && s[i] == c {
        skip_char(s, c, i + 1)
    } else {
        i
    }
}

/// `s` without its leading run of `c` (`str::trim_start_matches` with a `char`).
pub open spec fn strip_leading(s: Seq<char>, c: char) -> Seq<char> {
    s.subrange(skip_char(s, c, 0), s.len() as int)
}

/// The timestamp read from a date text: RFC 3339 first, then a plain
/// `YYYY-MM-DD` date (at midnight UTC), then `YYYY-MM-DDTHH:MM:SS` with an
/// offset; `prev` when none of them reads it.
pub open spec fn date_value(d: Seq<char>, prev: Option<i64>) -> Option<i64> {
    if spec_rfc3339_timestamp(d) is Some {
        spec_rfc3339_timestamp(d)
    } else if spec_naive_date_timestamp(d, ymd_format()) is Some {
        spec_naive_date_timestamp(d, ymd_format())
    } else if spec_datetime_timestamp(d, iso_seconds_format()) is Some {
        spec_datetime_timestamp(d, iso_seconds_format())
    } else {
        prev
    }
}

pub proof fn lemma_trim_start_len(s: Seq<char>)
    ensures
        trim_start(s).len() <= s.len(),
        0 <= skip_ws(s, 0) <= s.len(),
        trim_start(s).len() == s.len() - skip_ws(s, 0),
{
    lemma_skip_ws(s, 0);
}

/// The message, next run time and interval read from the text after the
/// checkbox, field by field: a `📅` field sets the message to the text before
/// it and reads a date up to the next space, `🔁` or `✅`; a `🔁` field reads
/// an interval up to the next space; a `✅` field is skipped up to the next
/// space; the last two set the message only when none is set yet, and so does
/// text with no field marker left.
#[verifier::opaque]
pub open spec fn scan(rem: Seq<char>, msg: Seq<char>, next: Option<i64>, interval: Option<i64>) -> (
    Seq<char>,
    Option<i64>,
    Option<i64>,
)
    decreases rem.len(),
{
    if rem.len() == 0 {
        (msg, next, interval)
    } else {
        let pc = find(rem, CALENDAR);
        let pr = find(rem, REPEAT);
        let pd = find(rem, DONE_MARK);
        if pc < rem.len() {
            let after = trim_start(rem.subrange(pc + 1, rem.len() as int));
            let de = find3(after, ' ', REPEAT, DONE_MARK);
            let rest = trim_start(after.subrange(de, after.len() as int));
            proof {
                lemma_find(rem, CALENDAR);
                lemma_trim_start_len(rem.subrange(pc + 1, rem.len() as int));
                lemma_find3_from(after, ' ', REPEAT, DONE_MARK, 0);
                lemma_trim_start_len(after.subrange(de, after.len() as int));
            }
            scan(rest, trim(rem.subrange(0, pc)), date_value(after.subrange(0, de), next), interval)
        } else if pr < rem.len() {
            let after = trim_start(rem.subrange(pr + 1, rem.len() as int));
            let ne = find(after, ' ');
            let rest = trim_start(after.subrange(ne, after.len() as int));
            let msg2 = if msg.len() == 0 {
                trim(rem.subrange(0, pr))
            } else {
                msg
            };
            let interval2 = match parse_i64_spec(after.subrange(0, ne)) {
                Some(n) => Some(n),
                None => interval,
            };
            proof {
                lemma_find(rem, REPEAT);
                lemma_trim_start_len(rem.subrange(pr + 1, rem.len() as int));
                lemma_find(after, ' ');
                lemma_trim_start_len(after.subrange(ne, after.len() as int));
            }
            scan(rest, msg2, next, interval2)
        } else if pd < rem.len() {
            let after = trim_start(rem.subrange(pd + 1, rem.len() as int));
            let ne = find(after, ' ');
            let rest = trim_start(after.subrange(ne, after.len() as int));
            let msg2 = if msg.len() == 0 {
                trim(rem.subrange(0, pd))
            } else {
                msg
            };
            proof {
                lemma_find(rem, DONE_MARK);
                lemma_trim_start_len(rem.subrange(pd + 1, rem.len() as int));
                lemma_find(after, ' ');
                lemma_trim_start_len(after.subrange(ne, after.len() as int));
            }
            scan(rest, msg2, next, interval)
        } else {
            (
                if msg.len() == 0 {
                    trim(rem)
                } else {
                    msg
                },
                next,
                interval,
            )
        }
    }
}

/// Whether a trimmed line opens with `- [`.
pub open spec fn opens_item(t: Seq<char>) -> bool {
    t.len() >= 3 && t[0] == '-' && t[1] == ' ' && t[2] == '['
}

/// Whether a trimmed line opens with `- [x]`.
pub open spec fn opens_done_box(t: Seq<char>) -> bool {
    opens_item(t) && t.len() >= 5 && t[3] == 'x' && t[4] == ']'
}

/// Whether a trimmed line opens with `- [ ]`.
pub open spec fn opens_open_box(t: Seq<char>) -> bool {
    opens_item(t) && t.len() >= 5 && t[3] == ' ' && t[4] == ']'
}

/// The schedule a line of the task list stands for, with the given id; `None`
/// for a line that is no task item or whose message is empty.
pub open spec fn parse_line_spec(line: Seq<char>, id: int) -> Option<ScheduleView> {
    let t = trim(line);
    if !opens_done_box(t) && !opens_open_box(t) {
        None
    } else {
        let rest = trim_start(t.subrange(5, t.len() as int));
        let status = if opens_done_box(t) {
            status_completed()
        } else if rest.len() > 0 && rest[0] == PAUSE_MARK {
            status_paused()
        } else {
            status_active()
        };
        let scanned = scan(rest, Seq::empty(), None, None);
        let message = trim(strip_leading(strip_leading(scanned.0, PAUSE_MARK), RUNNING_MARK));
        if message.len() == 0 {
            None
        } else {
            Some(
                ScheduleView {
                    id: id,
                    message: message,
                    next_run_at: match scanned.1 {
                        Some(n) => n as int,
                        None => 0,
                    },
                    interval_seconds: scanned.2,
                    status: status,
                    created_at: 0,
                },
            )
        }
    }
}

/// `v` without its leading run of `c`.
fn strip_leading_chars(v: &Vec<char>, c: char) -> (r: Vec<char>)
    ensures
        r@ == strip_leading(v@, c),
{
    let mut j: usize = 0;
    while j < v.len() && v[j] == c
        invariant
            j <= v.len(),
            skip_char(v@, c, j as int) == skip_char(v@, c, 0),
        decreases v.len() - j,
    {
        j = j + 1;
    }
    sub_chars(v, j, v.len())
}

/// The timestamp read from the date text `d` (see [`date_value`]).
fn read_date(d: &Vec<char>, prev: Option<i64>) -> (r: Option<i64>)
    ensures
        r == date_value(d@, prev),
{
    let s = string_of(d);
    let a = rfc3339_timestamp(s.as_str());
    if a.is_some() {
        return a;
    }
    let ymd = "%Y-%m-%d";
    proof {
        reveal_strlit("%Y-%m-%d");
        assert(ymd@ =~= ymd_format());
    }
    let b = naive_date_timestamp(s.as_str(), ymd);
    if b.is_some() {
        return b;
    }
    let iso = "%Y-%m-%dT%H:%M:%S";
    proof {
        reveal_strlit("%Y-%m-%dT%H:%M:%S");
        assert(iso@ =~= iso_seconds_format());
    }
    let c = datetime_timestamp(s.as_str(), iso);
    if c.is_some() {
        return c;
    }
    prev
}

/// The fields read from the text after the checkbox (see [`scan`]).
fn scan_fields(rest: &Vec<char>) -> (r: (Vec<char>, Option<i64>, Option<i64>))
    ensures
        (r.0@, r.1, r.2) == scan(rest@, Seq::empty(), None, None),
{
    let mut rem = sub_chars(rest, 0, rest.len());
    assert(rem@ =~= rest@);
    proof {
        reveal(scan);
    }
    let mut msg: Vec<char> = Vec::new();
    let mut next: Option<i64> = None;
    let mut interval: Option<i64> = None;
    while rem.len() > 0
        invariant
            scan(rem@, msg@, next, interval) == scan(rest@, Seq::empty(), None, None),
        decreases rem.len(),
    {
        let ghost r0 = rem@;
        let ghost m0 = msg@;
        let ghost n0 = next;
        let ghost i0 = interval;
        proof {
            reveal(scan);
            lemma_find(r0, CALENDAR);
            lemma_find(r0, REPEAT);
            lemma_find(r0, DONE_MARK);
        }
        let pc = find_char_from(&rem, CALENDAR, 0);
        if pc < rem.len() {
            let head = sub_chars(&rem, 0, pc);
            let tail = sub_chars(&rem, pc + 1, rem.len());
            let after = trim_start_chars(&tail);
            proof {
                lemma_trim_start_len(tail@);
                lemma_find3_from(after@, ' ', REPEAT, DONE_MARK, 0);
            }
            let de = find_any3_from(&after, ' ', REPEAT, DONE_MARK, 0);
            let date = sub_chars(&after, 0, de);
            let after2 = sub_chars(&after, de, after.len());
            msg = trim_chars(&head);
            next = read_date(&date, next);
            rem = trim_start_chars(&after2);
            proof {
                lemma_trim_start_len(after2@);
            }
        } else {
            let pr = find_char_from(&rem, REPEAT, 0);
            if pr < rem.len() {
                let head = sub_chars(&rem, 0, pr);
                let tail = sub_chars(&rem, pr + 1, rem.len());
                let after = trim_start_chars(&tail);
                proof {
                    lemma_trim_start_len(tail@);
                    lemma_find(after@, ' ');
                }
                let ne = find_char_from(&after, ' ', 0);
                let num = sub_chars(&after, 0, ne);
                let after2 = sub_chars(&after, ne, after.len());
                if msg.len() == 0 {
                    msg = trim_chars(&head);
                }
                match parse_i64(&num) {
                    Some(n) => {
                        interval = Some(n);
                    },
                    None => {},
                }
                rem = trim_start_chars(&after2);
                proof {
                    lemma_trim_start_len(after2@);
                }
            } else {
                let pd = find_char_from(&rem, DONE_MARK, 0);
                if pd < rem.len() {
                    let head = sub_chars(&rem, 0, pd);
                    let tail = sub_chars(&rem, pd + 1, rem.len());
                    let after = trim_start_chars(&tail);
                    proof {
                        lemma_trim_start_len(tail@);
                        lemma_find(after@, ' ');
                    }
                    let ne = find_char_from(&after, ' ', 0);
                    let after2 = sub_chars(&after, ne, after.len());
                    if msg.len() == 0 {
                        msg = trim_chars(&head);
                    }
                    rem = trim_start_chars(&after2);
                    proof {
                        lemma_trim_start_len(after2@);
                    }
                } else {
                    if msg.len() == 0 {
                        msg = trim_chars(&rem);
                    }
                    rem = Vec::new();
                }
            }
        }
    }
    (msg, next, interval)
}

/// Reads one line of the task list as a schedule with the given id; `None` for
/// a line that is no task item (`- [ ]` or `- [x]`) or whose message is empty.
pub fn parse_line(line: &str, id: i64) -> (r: Option<Schedule>)
    ensures
        match r {
            Some(s) => parse_line_spec(line@, id as int) == Some(s@),
            None => parse_line_spec(line@, id as int) is None,
        },
{
    let v = chars_of(line);
    let t = trim_chars(&v);
    let n = t.len();
    let done_box = n >= 5 && t[0] == '-' && t[1] == ' ' && t[2] == '[' && t[3] == 'x' && t[4]
        == ']';
    let open_box = n >= 5 && t[0] == '-' && t[1] == ' ' && t[2] == '[' && t[3] == ' ' && t[4]
        == ']';
    if !done_box && !open_box {
        return None;
    }
    let tail = sub_chars(&t, 5, n);
    let rest = trim_start_chars(&tail);
    let (m, next, interval) = scan_fields(&rest);
    let m1 = strip_leading_chars(&m, PAUSE_MARK);
    let m2 = strip_leading_chars(&m1, RUNNING_MARK);
    let message = trim_chars(&m2);
    if message.len() == 0 {
        return None;
    }
    let status = if done_box {
        let s = owned("completed");
        proof {
            reveal_strlit("completed");
            assert(s@ =~= status_completed());
        }
        s
    } else if rest.len() > 0 && rest[0] == PAUSE_MARK {
        let s = owned("paused");
        proof {
            reveal_strlit("paused");
            assert(s@ =~= status_paused());
        }
        s
    } else {
        let s = owned("active");
        proof {
            reveal_strlit("active");
            assert(s@ =~= status_active());
        }
        s
    };
    let next_run_at = match next {
        Some(x) => x,
        None => 0,
    };
    Some(
        Schedule {
            id,
            message: string_of(&message),
            next_run_at,
            interval_seconds: interval,
            status,
            created_at: 0,
        },
    )
}

// ───────────────────────── writing ─────────────────────────

/// The line of the task list for schedule `s`, where `date` is the text of its
/// next run time and `done` the text of its completion time.
pub open spec fn format_line_spec(s: ScheduleView, date: Seq<char>, done: Seq<char>) -> Seq<char> {
    let completed = s.status == status_completed();
    let checkbox = if completed {
        seq!['-', ' ', '[', 'x', ']']
    } else {
        seq!['-', ' ', '[', ' ', ']']
    };
    let prefix = if s.status == status_paused() {
        seq![PAUSE_MARK]
    } else {
        Seq::empty()
    };
    let base = checkbox + seq![' '] + prefix + s.message + seq![' ', CALENDAR] + date;
    let with_interval = match s.interval_seconds {
        Some(n) => base + seq![' ', REPEAT] + decimal(n as int),
        None => base,
    };
    if completed {
        with_interval + seq![' ', DONE_MARK] + done
    } else {
        with_interval
    }
}

/// Whether the status text `status` is `completed`.
fn is_completed(status: &String) -> (r: bool)
    ensures
        r == (status@ == status_completed()),
{
    let lit = "completed";
    proof {
        reveal_strlit("completed");
        assert(lit@ =~= status_completed());
    }
    same_chars(&chars_of(status.as_str()), &chars_of(lit))
}

/// Whether the status text `status` is `paused`.
fn is_paused(status: &String) -> (r: bool)
    ensures
        r == (status@ == status_paused()),
{
    let lit = "paused";
    proof {
        reveal_strlit("paused");
        assert(lit@ =~= status_paused());
    }
    same_chars(&chars_of(status.as_str()), &chars_of(lit))
}

/// The line of the task list for `s`, with `date` as the text of its next run
/// time and `done` as the text of its completion time.
pub fn format_line_with(s: &Schedule, date: &str, done: &str) -> (r: String)
    ensures
        r@ == format_line_spec(s@, date@, done@),
{
    let completed = is_completed(&s.status);
    let mut line = String::new();
    if completed {
        push_char(&mut line, '-');
        push_char(&mut line, ' ');
        push_char(&mut line, '[');
        push_char(&mut line, 'x');
        push_char(&mut line, ']');
    } else {
        push_char(&mut line, '-');
        push_char(&mut line, ' ');
        push_char(&mut line, '[');
        push_char(&mut line, ' ');
        push_char(&mut line, ']');
    }
    push_char(&mut line, ' ');
    if is_paused(&s.status) {
        push_char(&mut line, PAUSE_MARK);
    }
    push_str(&mut line, s.message.as_str());
    push_char(&mut line, ' ');
    push_char(&mut line, CALENDAR);
    push_str(&mut line, date);
    match s.interval_seconds {
        Some(n) => {
            push_char(&mut line, ' ');
            push_char(&mut line, REPEAT);
            let digits = decimal_chars(n);
            push_chars(&mut line, &digits);
        },
        None => {},
    }
    if completed {
        push_char(&mut line, ' ');
        push_char(&mut line, DONE_MARK);
        push_str(&mut line, done);
    }
    assert(line@ =~= format_line_spec(s@, date@, done@));
    line
}

/// The line of the task list for `s`: its next run time is written with
/// `chrono` as `YYYY-MM-DDTHH:MM:SS` (UTC), and a completed schedule ends with
/// the current time in the same form.
pub fn format_line(s: &Schedule) -> (r: String)
    ensures
        exists|now: i64|
            r@ == format_line_spec(
                s@,
                spec_format_timestamp(s.next_run_at, iso_seconds_format()),
                #[trigger] spec_format_timestamp(now, iso_seconds_format()),
            ) && timestamp_text(spec_format_timestamp(now, iso_seconds_format())),
        timestamp_text(spec_format_timestamp(s.next_run_at, iso_seconds_format())),
        message_reads_back(s@.message) ==> forall|id: int|
            #[trigger] parse_line_spec(r@, id) == Some(read_back(s@, id)),
{
    let iso = "%Y-%m-%dT%H:%M:%S";
    proof {
        reveal_strlit("%Y-%m-%dT%H:%M:%S");
        assert(iso@ =~= iso_seconds_format());
    }
    let date = format_timestamp(s.next_run_at, iso);
    proof {
        lemma_timestamp_reads_back(date@);
        assert(date_text(s@) == date@);
    }
    if is_completed(&s.status) {
        let now = utc_now_timestamp();
        let done = format_timestamp(now, iso);
        let r = format_line_with(s, date.as_str(), done.as_str());
        proof {
            lemma_timestamp_reads_back(done@);
            assert forall|id: int| message_reads_back(s@.message) implies #[trigger] parse_line_spec(
                r@,
                id,
            ) == Some(read_back(s@, id)) by {
                format_then_parse_line(s@, date@, done@, id);
            }
        }
        r
    } else {
        let r = format_line_with(s, date.as_str(), "");
        proof {
            reveal_strlit("");
            let e = ""@;
            assert(e.len() == 0);
            assert(!has_char(e, CALENDAR) && !has_char(e, REPEAT));
            assert(r@ == format_line_spec(s@, date@, date@));
            assert forall|id: int| message_reads_back(s@.message) implies #[trigger] parse_line_spec(
                r@,
                id,
            ) == Some(read_back(s@, id)) by {
                format_then_parse_line(s@, date@, e, id);
            }
        }
        r
    }
}

/// A text of [`timestamp_text`] characters reads back as a date text, and
/// holds no line break and no mark of the task-list format.
pub proof fn lemma_timestamp_reads_back(d: Seq<char>)
    requires
        timestamp_text(d),
    ensures
        date_reads_back(d),
        !has_char(d, '\n'),
        !has_char(d, CALENDAR),
        !has_char(d, REPEAT),
        !has_char(d, DONE_MARK),
{
    assert forall|c: char| #[trigger] crate::clock::timestamp_char(c) implies !is_ws(c) && c != ' '
        && c != '\n' && c != CALENDAR && c != REPEAT && c != DONE_MARK by {}
    if d.len() > 0 {
        assert(crate::clock::timestamp_char(d[0]));
        assert(crate::clock::timestamp_char(d[d.len() - 1]));
    }
    assert forall|c: char| !crate::clock::timestamp_char(c) implies !has_char(d, c) by {
        if has_char(d, c) {
            let k = choose|k: int| 0 <= k < d.len() && d[k] == c;
            assert(crate::clock::timestamp_char(d[k]));
        }
    }
}

// ───────────────────────── reading back what was written ─────────────────────────

/// The status a schedule reads back as: `completed` and `paused` stay, any
/// other status reads back as `active`.
pub open spec fn normalized_status(st: Seq<char>) -> Seq<char> {
    if st == status_completed() {
        status_completed()
    } else if st == status_paused() {
        status_paused()
    } else {
        status_active()
    }
}

/// A message that reads back unchanged: not empty, no whitespace at either
/// end, not starting with `⏸` or `🏃`, and free of `📅`.
pub open spec fn message_reads_back(m: Seq<char>) -> bool {
    &&& m.len() > 0
    &&& !is_ws(m[0])
    &&& !is_ws(m[m.len() - 1])
    &&& m[0] != PAUSE_MARK
    &&& m[0] != RUNNING_MARK
    &&& !has_char(m, CALENDAR)
}

/// A date text that reads back as itself: no space, `🔁` or `✅`, and no
/// whitespace at either end.
pub open spec fn date_reads_back(d: Seq<char>) -> bool {
    &&& !has_char(d, ' ')
    &&& !has_char(d, REPEAT)
    &&& !has_char(d, DONE_MARK)
    &&& (d.len() > 0 ==> !is_ws(d[0]) && !is_ws(d[d.len() - 1]))
}

proof fn lemma_has_concat(a: Seq<char>, b: Seq<char>, c: char)
    ensures
        has_char(a + b, c) <==> (has_char(a, c) || has_char(b, c)),
{
    let s = a + b;
    if has_char(s, c) {
        let k = choose|k: int| 0 <= k < s.len() && s[k] == c;
        if k < a.len() {
            assert(a[k] == c);
        } else {
            assert(b[k - a.len()] == c);
        }
    }
    if has_char(a, c) {
        let k = choose|k: int| 0 <= k < a.len() && a[k] == c;
        assert(s[k] == c);
    }
    if has_char(b, c) {
        let k = choose|k: int| 0 <= k < b.len() && b[k] == c;
        assert(s[k + a.len()] == c);
    }
}

proof fn lemma_has_subrange(s: Seq<char>, i: int, j: int, c: char)
    requires
        0 <= i <= j <= s.len(),
        !has_char(s, c),
    ensures
        !has_char(s.subrange(i, j), c),
{
    if has_char(s.subrange(i, j), c) {
        let k = choose|k: int| 0 <= k < j - i && s.subrange(i, j)[k] == c;
        assert(s[k + i] == c);
    }
}

/// `find` returns the first occurrence.
proof fn lemma_find_at(s: Seq<char>, c: char, p: int)
    requires
        0 <= p <= s.len(),
        p < s.len() ==> s[p] == c,
        forall|k: int| 0 <= k < p ==> s[k] != c,
    ensures
        find(s, c) == p,
{
    lemma_find(s, c);
    if find(s, c) < p {
        assert(s[find(s, c)] != c);
    }
    if find(s, c) > p {
        assert(s[p] != c);
    }
}

proof fn lemma_find3_at(s: Seq<char>, a: char, b: char, c: char, p: int)
    requires
        0 <= p <= s.len(),
        p < s.len() ==> (s[p] == a || s[p] == b || s[p] == c),
        forall|k: int| 0 <= k < p ==> s[k] != a && s[k] != b && s[k] != c,
    ensures
        find3(s, a, b, c) == p,
{
    lemma_find3_from(s, a, b, c, 0);
    let f = find3(s, a, b, c);
    if f < p {
        assert(s[f] != a && s[f] != b && s[f] != c);
    }
    if f > p {
        assert(s[p] != a && s[p] != b && s[p] != c);
    }
}

proof fn lemma_trim_start_id(y: Seq<char>)
    requires
        y.len() > 0 ==> !is_ws(y[0]),
    ensures
        trim_start(y) == y,
{
    assert(skip_ws(y, 0) == 0);
    assert(y.subrange(0, y.len() as int) =~= y);
}

proof fn lemma_trim_start_space(y: Seq<char>)
    requires
        y.len() > 0,
        y[0] == ' ',
        y.len() > 1 ==> !is_ws(y[1]),
    ensures
        trim_start(y) == y.drop_first(),
{
    assert(is_ws(' '));
    assert(skip_ws(y, 1) == 1);
    assert(skip_ws(y, 0) == 1);
    assert(y.subrange(1, y.len() as int) =~= y.drop_first());
}

/// `a` followed by a space trims back to `a`.
proof fn lemma_trim_space_after(a: Seq<char>)
    requires
        a.len() > 0,
        !is_ws(a[0]),
        !is_ws(a[a.len() - 1]),
    ensures
        trim(a + seq![' ']) == a,
{
    let s = a + seq![' '];
    lemma_trim_start_id(s);
    assert(is_ws(' '));
    crate::text::lemma_trim_end_concat(a, seq![' ']);
}

proof fn lemma_strip_leading_id(m: Seq<char>, c: char)
    requires
        m.len() > 0 ==> m[0] != c,
    ensures
        strip_leading(m, c) == m,
{
    assert(skip_char(m, c, 0) == 0);
    assert(m.subrange(0, m.len() as int) =~= m);
}

proof fn lemma_strip_one(m: Seq<char>, c: char)
    requires
        m.len() > 0 ==> m[0] != c,
    ensures
        strip_leading(seq![c] + m, c) == m,
{
    let s = seq![c] + m;
    assert(s[0] == c);
    if m.len() > 0 {
        assert(s[1] == m[0]);
    }
    assert(skip_char(s, c, 1) == 1);
    assert(skip_char(s, c, 0) == 1);
    assert(s.subrange(1, s.len() as int) =~= m);
}

/// With a message set, text free of `📅` and `🔁` changes nothing.
proof fn lemma_scan_tail(r: Seq<char>, msg: Seq<char>, next: Option<i64>, interval: Option<i64>)
    requires
        msg.len() > 0,
        !has_char(r, CALENDAR),
        !has_char(r, REPEAT),
    ensures
        scan(r, msg, next, interval) == (msg, next, interval),
    decreases r.len(),
{
    reveal(scan);
    if r.len() > 0 {
        lemma_find(r, CALENDAR);
        lemma_find(r, REPEAT);
        lemma_find(r, DONE_MARK);
        let pd = find(r, DONE_MARK);
        if pd < r.len() {
            let tail = r.subrange(pd + 1, r.len() as int);
            let after = trim_start(tail);
            let ne = find(after, ' ');
            lemma_trim_start_len(tail);
            lemma_find(after, ' ');
            lemma_has_subrange(r, pd + 1, r.len() as int, CALENDAR);
            lemma_has_subrange(r, pd + 1, r.len() as int, REPEAT);
            lemma_has_subrange(tail, skip_ws(tail, 0), tail.len() as int, CALENDAR);
            lemma_has_subrange(tail, skip_ws(tail, 0), tail.len() as int, REPEAT);
            let a2 = after.subrange(ne, after.len() as int);
            lemma_has_subrange(after, ne, after.len() as int, CALENDAR);
            lemma_has_subrange(after, ne, after.len() as int, REPEAT);
            lemma_trim_start_len(a2);
            lemma_has_subrange(a2, skip_ws(a2, 0), a2.len() as int, CALENDAR);
            lemma_has_subrange(a2, skip_ws(a2, 0), a2.len() as int, REPEAT);
            lemma_scan_tail(trim_start(a2), msg, next, interval);
        }
    }
}

/// The tail after the date: an optional interval field, then an optional
/// completion field.
pub open spec fn line_tail(s: ScheduleView, done: Seq<char>) -> Seq<char> {
    let iv = match s.interval_seconds {
        Some(n) => seq![' ', REPEAT] + decimal(n as int),
        None => Seq::empty(),
    };
    let dn = if s.status == status_completed() {
        seq![' ', DONE_MARK] + done
    } else {
        Seq::empty()
    };
    iv + dn
}

/// Reading the tail after the date gives back the interval.
proof fn lemma_scan_line_tail(
    s: ScheduleView,
    done: Seq<char>,
    msg: Seq<char>,
    next: Option<i64>,
)
    requires
        msg.len() > 0,
        !has_char(done, CALENDAR),
        !has_char(done, REPEAT),
    ensures
        scan(trim_start(line_tail(s, done)), msg, next, None) == (msg, next, s.interval_seconds),
{
    reveal(scan);
    let dn = if s.status == status_completed() {
        seq![' ', DONE_MARK] + done
    } else {
        Seq::empty()
    };
    lemma_has_concat(seq![' ', DONE_MARK], done, CALENDAR);
    lemma_has_concat(seq![' ', DONE_MARK], done, REPEAT);
    assert(!has_char(seq![' ', DONE_MARK], CALENDAR));
    assert(!has_char(seq![' ', DONE_MARK], REPEAT));
    assert(!has_char(dn, CALENDAR));
    assert(!has_char(dn, REPEAT));
    let t = trim_start(dn);
    lemma_trim_start_len(dn);
    lemma_has_subrange(dn, skip_ws(dn, 0), dn.len() as int, CALENDAR);
    lemma_has_subrange(dn, skip_ws(dn, 0), dn.len() as int, REPEAT);
    match s.interval_seconds {
        Some(n) => {
            let dec = decimal(n as int);
            let r = seq![' ', REPEAT] + dec + dn;
            assert(line_tail(s, done) =~= r);
            crate::text::lemma_parse_decimal(n);
            lemma_decimal_shape(n);
            let r1 = seq![REPEAT] + dec + dn;
            assert(r.drop_first() =~= r1);
            lemma_trim_start_space(r);
            assert(trim_start(r) == r1);
            // the interval field comes first
            lemma_has_concat(seq![REPEAT] + dec, dn, CALENDAR);
            lemma_has_concat(seq![REPEAT], dec, CALENDAR);
            assert(!has_char(seq![REPEAT], CALENDAR));
            assert(!has_char(r1, CALENDAR));
            lemma_find(r1, CALENDAR);
            lemma_find_at(r1, REPEAT, 0);
            let tail = r1.subrange(1, r1.len() as int);
            assert(tail =~= dec + dn);
            lemma_trim_start_id(dec + dn);
            let after = dec + dn;
            assert(dn.len() > 0 ==> dn[0] == ' ');
            assert forall|k: int| 0 <= k < dec.len() implies after[k] != ' ' by {
                assert(after[k] == dec[k]);
            }
            if dn.len() > 0 {
                assert(after[dec.len() as int] == ' ');
            }
            lemma_find_at(after, ' ', dec.len() as int);
            assert(after.subrange(0, dec.len() as int) =~= dec);
            assert(after.subrange(dec.len() as int, after.len() as int) =~= dn);
            assert(scan(r1, msg, next, None) == scan(t, msg, next, Some(n)));
            lemma_scan_tail(t, msg, next, Some(n));
        },
        None => {
            assert(line_tail(s, done) =~= dn);
            lemma_scan_tail(t, msg, next, None);
        },
    }
}

/// Shape of decimal text: starts with `-` or a digit, holds no space or marker.
proof fn lemma_decimal_shape(n: i64)
    ensures
        decimal(n as int).len() > 0,
        !is_ws(decimal(n as int)[0]),
        !has_char(decimal(n as int), ' '),
        !has_char(decimal(n as int), CALENDAR),
        !has_char(decimal(n as int), REPEAT),
        !has_char(decimal(n as int), DONE_MARK),
{
    let d = decimal(n as int);
    let m: nat = if n < 0 {
        (-n) as nat
    } else {
        n as nat
    };
    crate::text::lemma_digits_of(m);
    let g = crate::text::digits_of(m);
    assert forall|k: int| 0 <= k < d.len() implies (d[k] == '-' || crate::text::is_digit(
        #[trigger] d[k],
    )) by {
        if n < 0 {
            if k > 0 {
                assert(d[k] == g[k - 1]);
            }
        } else {
            assert(d[k] == g[k]);
        }
    }
    assert(!is_ws(d[0]));
}

/// The part of a line up to and including the `📅` mark.
pub open spec fn line_head(s: ScheduleView) -> Seq<char> {
    let checkbox = if s.status == status_completed() {
        seq!['-', ' ', '[', 'x', ']']
    } else {
        seq!['-', ' ', '[', ' ', ']']
    };
    let prefix = if s.status == status_paused() {
        seq![PAUSE_MARK]
    } else {
        Seq::empty()
    };
    checkbox + seq![' '] + prefix + s.message + seq![' ', CALENDAR]
}

proof fn lemma_format_parts(s: ScheduleView, date: Seq<char>, done: Seq<char>)
    ensures
        format_line_spec(s, date, done) == line_head(s) + date + line_tail(s, done),
{
    assert(format_line_spec(s, date, done) =~= line_head(s) + date + line_tail(s, done));
}

/// Trimming a written line only shortens the completion text.
proof fn lemma_trim_line(s: ScheduleView, date: Seq<char>, done: Seq<char>) -> (done2: Seq<char>)
    requires
        s.message.len() > 0,
        date_reads_back(date),
    ensures
        trim(format_line_spec(s, date, done)) == format_line_spec(s, date, done2),
        done2.len() <= done.len(),
        done2 == done.subrange(0, done2.len() as int),
{
    let l = format_line_spec(s, date, done);
    lemma_format_parts(s, date, done);
    lemma_trim_start_id(l);
    lemma_decimal_shape_any(s);
    crate::text::lemma_ws_end(l, l.len() as int);
    let e = crate::text::ws_end(l, l.len() as int);
    if s.status == status_completed() {
        let iv = match s.interval_seconds {
            Some(n) => seq![' ', REPEAT] + decimal(n as int),
            None => Seq::<char>::empty(),
        };
        let x = line_head(s) + date + iv + seq![' ', DONE_MARK];
        assert(l =~= x + done);
        assert(l[x.len() - 1] == DONE_MARK);
        assert(!is_ws(DONE_MARK));
        assert(e >= x.len());
        let done2 = done.subrange(0, e - x.len());
        assert(l.subrange(0, e) =~= x + done2);
        assert(format_line_spec(s, date, done2) =~= x + done2);
        done2
    } else {
        assert(l =~= line_head(s) + date + line_tail(s, done));
        assert(!is_ws(l[l.len() - 1])) by {
            match s.interval_seconds {
                Some(n) => {
                    let dec = decimal(n as int);
                    lemma_decimal_last(n);
                    assert(l[l.len() - 1] == dec[dec.len() - 1]);
                },
                None => {
                    if date.len() > 0 {
                        assert(l[l.len() - 1] == date[date.len() - 1]);
                    } else {
                        assert(l[l.len() - 1] == CALENDAR);
                    }
                },
            }
        }
        assert(e == l.len());
        assert(l.subrange(0, e) =~= l);
        done
    }
}

proof fn lemma_decimal_shape_any(s: ScheduleView)
    ensures
        s.interval_seconds matches Some(n) ==> decimal(n as int).len() > 0,
{
    match s.interval_seconds {
        Some(n) => lemma_decimal_shape(n),
        None => {},
    }
}

proof fn lemma_decimal_last(n: i64)
    ensures
        decimal(n as int).len() > 0,
        !is_ws(decimal(n as int)[decimal(n as int).len() - 1]),
{
    let d = decimal(n as int);
    let m: nat = if n < 0 {
        (-n) as nat
    } else {
        n as nat
    };
    crate::text::lemma_digits_of(m);
    let g = crate::text::digits_of(m);
    assert(d[d.len() - 1] == g[g.len() - 1]);
    assert(crate::text::is_digit(g[g.len() - 1]));
}

/// Reading the date field of a written line.
#[verifier::spinoff_prover]
proof fn lemma_scan_first_field(pm: Seq<char>, date: Seq<char>, tail: Seq<char>)
    requires
        pm.len() > 0,
        !is_ws(pm[0]),
        !is_ws(pm[pm.len() - 1]),
        !has_char(pm, CALENDAR),
        date_reads_back(date),
        tail.len() > 0 ==> tail[0] == ' ',
        tail.len() > 1 ==> (tail[1] == REPEAT || tail[1] == DONE_MARK),
        tail.len() == 1 ==> false,
    ensures
        scan(pm + seq![' ', CALENDAR] + date + tail, Seq::empty(), None, None) == scan(
            trim_start(tail),
            pm,
            date_value(date, None),
            None,
        ),
{
    reveal(scan);
    let rest = pm + seq![' ', CALENDAR] + date + tail;
    // the date field
    let a = pm + seq![' '];
    assert forall|k: int| 0 <= k < a.len() implies rest[k] != CALENDAR by {
        assert(rest[k] == a[k]);
        if k < pm.len() {
            assert(pm[k] == a[k]);
        }
    }
    assert(rest[a.len() as int] == CALENDAR);
    lemma_find_at(rest, CALENDAR, a.len() as int);
    assert(rest.subrange(0, a.len() as int) =~= a);
    lemma_trim_space_after(pm);
    let tail1 = rest.subrange(a.len() as int + 1, rest.len() as int);
    assert(tail1 =~= date + tail);
    assert(tail.len() > 0 ==> tail[0] == ' ');
    assert(tail.len() > 1 ==> (tail[1] == REPEAT || tail[1] == DONE_MARK));
    let after = trim_start(tail1);
    let de = find3(after, ' ', REPEAT, DONE_MARK);
    if date.len() > 0 {
        lemma_trim_start_id(tail1);
        assert forall|k: int| 0 <= k < date.len() implies after[k] != ' ' && after[k] != REPEAT
            && after[k] != DONE_MARK by {
            assert(after[k] == date[k]);
        }
        if tail.len() > 0 {
            assert(after[date.len() as int] == tail[0]);
        }
        lemma_find3_at(after, ' ', REPEAT, DONE_MARK, date.len() as int);
        assert(after.subrange(0, de) =~= date);
        assert(after.subrange(de, after.len() as int) =~= tail);
    } else {
        assert(tail1 =~= tail);
        if tail.len() > 0 {
            lemma_trim_start_space(tail);
            assert(after =~= tail.drop_first());
            assert(after[0] == tail[1]);
        } else {
            assert(skip_ws(tail, 0) == 0);
            assert(after =~= tail);
        }
        lemma_find3_at(after, ' ', REPEAT, DONE_MARK, 0);
        assert(after.subrange(0, de) =~= date);
        assert(after.subrange(de, after.len() as int) =~= after);
        lemma_trim_start_id(after);
    }
    let next = date_value(date, None);
    assert(scan(rest, Seq::empty(), None, None) == scan(trim_start(tail), pm, next, None));
}

/// A written line reads back as the schedule it was written from: the same
/// message, interval and (normalized) status, and as next run time whatever
/// the date text reads as; given a message that reads back, a date text that
/// reads back, and a completion text free of `📅` and `🔁`.
#[verifier::spinoff_prover]
pub proof fn format_then_parse_line(s: ScheduleView, date: Seq<char>, done: Seq<char>, id: int)
    requires
        message_reads_back(s.message),
        date_reads_back(date),
        !has_char(done, CALENDAR),
        !has_char(done, REPEAT),
    ensures
        parse_line_spec(format_line_spec(s, date, done), id) == Some(
            ScheduleView {
                id: id,
                message: s.message,
                next_run_at: match date_value(date, None) {
                    Some(n) => n as int,
                    None => 0,
                },
                interval_seconds: s.interval_seconds,
                status: normalized_status(s.status),
                created_at: 0,
            },
        ),
{
    let done2 = lemma_trim_line(s, date, done);
    lemma_has_subrange(done, 0, done2.len() as int, CALENDAR);
    lemma_has_subrange(done, 0, done2.len() as int, REPEAT);
    let t = format_line_spec(s, date, done2);
    lemma_format_parts(s, date, done2);
    let m = s.message;
    let prefix = if s.status == status_paused() {
        seq![PAUSE_MARK]
    } else {
        Seq::<char>::empty()
    };
    let pm = prefix + m;
    let tail = line_tail(s, done2);
    assert(!is_ws(PAUSE_MARK));
    // the checkbox
    let completed = s.status == status_completed();
    assert(completed ==> s.status != status_paused()) by {
        if completed && s.status == status_paused() {
            assert(status_completed()[0] != status_paused()[0]);
        }
    }
    assert(opens_done_box(t) == completed);
    assert(opens_done_box(t) || opens_open_box(t));
    // the text after the checkbox
    let after_box = t.subrange(5, t.len() as int);
    assert(after_box =~= seq![' '] + pm + seq![' ', CALENDAR] + date + tail);
    assert(pm[0] == PAUSE_MARK || pm[0] == m[0]);
    lemma_trim_start_space(after_box);
    let rest = pm + seq![' ', CALENDAR] + date + tail;
    assert(after_box.drop_first() =~= rest);
    assert(rest[0] == pm[0]);
    // the status
    assert((rest.len() > 0 && rest[0] == PAUSE_MARK) == (s.status == status_paused()));
    let next = date_value(date, None);
    lemma_has_concat(prefix, m, CALENDAR);
    assert(!has_char(prefix, CALENDAR));
    lemma_decimal_shape_any(s);
    lemma_scan_first_field(pm, date, tail);

    lemma_scan_line_tail(s, done2, pm, next);
    // the message
    if s.status == status_paused() {
        lemma_strip_one(m, PAUSE_MARK);
        assert(pm =~= seq![PAUSE_MARK] + m);
    } else {
        assert(pm =~= m);
        lemma_strip_leading_id(m, PAUSE_MARK);
    }
    lemma_strip_leading_id(m, RUNNING_MARK);
    crate::text::lemma_trim_noop(m);
    assert(normalized_status(s.status) == (if completed {
        status_completed()
    } else if s.status == status_paused() {
        status_paused()
    } else {
        status_active()
    }));
}

/// A task line with no date field: the checkbox (`[x]` when a completion
/// field is given), the message, then an optional `🔁` interval field and an
/// optional `✅` completion field.
pub open spec fn undated_line(m: Seq<char>, interval: Option<i64>, done: Option<Seq<char>>) -> Seq<
    char,
> {
    let checkbox = if done is Some {
        seq!['-', ' ', '[', 'x', ']']
    } else {
        seq!['-', ' ', '[', ' ', ']']
    };
    let iv = match interval {
        Some(n) => seq![' ', REPEAT] + decimal(n as int),
        None => Seq::empty(),
    };
    let dn = match done {
        Some(d) => seq![' ', DONE_MARK] + d,
        None => Seq::empty(),
    };
    checkbox + seq![' '] + m + iv + dn
}

/// What follows a `✅` field does not change a message that is set.
proof fn lemma_scan_after_done(d: Seq<char>, m: Seq<char>, interval: Option<i64>) -> (r2: Seq<char>)
    requires
        m.len() > 0,
        !has_char(d, CALENDAR),
        !has_char(d, REPEAT),
    ensures
        ({
            let after = trim_start(d);
            let ne = find(after, ' ');
            r2 == trim_start(after.subrange(ne, after.len() as int))
        }),
        scan(r2, m, None, interval) == (m, None::<i64>, interval),
{
    let after = trim_start(d);
    lemma_trim_start_len(d);
    lemma_has_subrange(d, skip_ws(d, 0), d.len() as int, CALENDAR);
    lemma_has_subrange(d, skip_ws(d, 0), d.len() as int, REPEAT);
    let ne = find(after, ' ');
    lemma_find(after, ' ');
    let a2 = after.subrange(ne, after.len() as int);
    lemma_has_subrange(after, ne, after.len() as int, CALENDAR);
    lemma_has_subrange(after, ne, after.len() as int, REPEAT);
    lemma_trim_start_len(a2);
    lemma_has_subrange(a2, skip_ws(a2, 0), a2.len() as int, CALENDAR);
    lemma_has_subrange(a2, skip_ws(a2, 0), a2.len() as int, REPEAT);
    lemma_scan_tail(trim_start(a2), m, None, interval);
    trim_start(a2)
}

/// The text of a completion field, when there is one.
pub open spec fn done_field(done: Option<Seq<char>>) -> Seq<char> {
    match done {
        Some(d) => seq![' ', DONE_MARK] + d,
        None => Seq::empty(),
    }
}

proof fn lemma_done_field_marks(done: Option<Seq<char>>)
    requires
        done matches Some(d) ==> !has_char(d, CALENDAR) && !has_char(d, REPEAT),
    ensures
        !has_char(done_field(done), CALENDAR),
        !has_char(done_field(done), REPEAT),
        !has_char(trim_start(done_field(done)), CALENDAR),
        !has_char(trim_start(done_field(done)), REPEAT),
{
    let dn = done_field(done);
    match done {
        Some(d) => {
            lemma_has_concat(seq![' ', DONE_MARK], d, CALENDAR);
            lemma_has_concat(seq![' ', DONE_MARK], d, REPEAT);
            assert(!has_char(seq![' ', DONE_MARK], CALENDAR));
            assert(!has_char(seq![' ', DONE_MARK], REPEAT));
        },
        None => {},
    }
    lemma_trim_start_len(dn);
    lemma_has_subrange(dn, skip_ws(dn, 0), dn.len() as int, CALENDAR);
    lemma_has_subrange(dn, skip_ws(dn, 0), dn.len() as int, REPEAT);
}

/// Reading the text after the checkbox of a line with an interval field and
/// no date field.
#[verifier::spinoff_prover]
proof fn lemma_scan_interval_first(m: Seq<char>, n: i64, done: Option<Seq<char>>)
    requires
        m.len() > 0,
        !is_ws(m[0]),
        !is_ws(m[m.len() - 1]),
        !has_char(m, CALENDAR),
        !has_char(m, REPEAT),
        done matches Some(d) ==> !has_char(d, CALENDAR) && !has_char(d, REPEAT),
    ensures
        scan(m + seq![' ', REPEAT] + decimal(n as int) + done_field(done), Seq::empty(), None, None)
            == (m, None::<i64>, Some(n)),
{
    reveal(scan);
    let dec = decimal(n as int);
    let dn = done_field(done);
    let r = m + seq![' ', REPEAT] + dec + dn;
    lemma_decimal_shape(n);
    crate::text::lemma_parse_decimal(n);
    lemma_done_field_marks(done);
    // no date field anywhere
    lemma_has_concat(m + seq![' ', REPEAT] + dec, dn, CALENDAR);
    lemma_has_concat(m + seq![' ', REPEAT], dec, CALENDAR);
    lemma_has_concat(m, seq![' ', REPEAT], CALENDAR);
    assert(!has_char(seq![' ', REPEAT], CALENDAR));
    assert(!has_char(r, CALENDAR));
    lemma_find(r, CALENDAR);
    // the interval field comes first
    let p = m.len() as int + 1;
    assert forall|k: int| 0 <= k < p implies r[k] != REPEAT by {
        if k < m.len() {
            assert(r[k] == m[k]);
        } else {
            assert(r[k] == ' ');
        }
    }
    assert(r[p] == REPEAT);
    lemma_find_at(r, REPEAT, p);
    assert(r.subrange(0, p) =~= m + seq![' ']);
    lemma_trim_space_after(m);
    let after0 = r.subrange(p + 1, r.len() as int);
    assert(after0 =~= dec + dn);
    lemma_trim_start_id(dec + dn);
    let after = dec + dn;
    assert forall|k: int| 0 <= k < dec.len() implies after[k] != ' ' by {
        assert(after[k] == dec[k]);
    }
    if dn.len() > 0 {
        assert(after[dec.len() as int] == ' ');
    }
    lemma_find_at(after, ' ', dec.len() as int);
    assert(after.subrange(0, dec.len() as int) =~= dec);
    assert(after.subrange(dec.len() as int, after.len() as int) =~= dn);
    assert(scan(r, Seq::empty(), None, None) == scan(trim_start(dn), m, None, Some(n)));
    lemma_scan_tail(trim_start(dn), m, None, Some(n));
}

/// Reading the text after the checkbox of a line with a completion field and
/// no date or interval field.
#[verifier::spinoff_prover]
proof fn lemma_scan_done_first(m: Seq<char>, d: Seq<char>)
    requires
        m.len() > 0,
        !is_ws(m[0]),
        !is_ws(m[m.len() - 1]),
        !has_char(m, CALENDAR),
        !has_char(m, REPEAT),
        !has_char(m, DONE_MARK),
        !has_char(d, CALENDAR),
        !has_char(d, REPEAT),
    ensures
        scan(m + seq![' ', DONE_MARK] + d, Seq::empty(), None, None) == (m, None::<i64>, None::<i64>),
{
    reveal(scan);
    let r = m + seq![' ', DONE_MARK] + d;
    lemma_has_concat(m + seq![' ', DONE_MARK], d, CALENDAR);
    lemma_has_concat(m, seq![' ', DONE_MARK], CALENDAR);
    lemma_has_concat(m + seq![' ', DONE_MARK], d, REPEAT);
    lemma_has_concat(m, seq![' ', DONE_MARK], REPEAT);
    assert(!has_char(seq![' ', DONE_MARK], CALENDAR));
    assert(!has_char(seq![' ', DONE_MARK], REPEAT));
    lemma_find(r, CALENDAR);
    lemma_find(r, REPEAT);
    let p = m.len() as int + 1;
    assert forall|k: int| 0 <= k < p implies r[k] != DONE_MARK by {
        if k < m.len() {
            assert(r[k] == m[k]);
        } else {
            assert(r[k] == ' ');
        }
    }
    assert(r[p] == DONE_MARK);
    lemma_find_at(r, DONE_MARK, p);
    assert(r.subrange(0, p) =~= m + seq![' ']);
    lemma_trim_space_after(m);
    assert(r.subrange(p + 1, r.len() as int) =~= d);
    let r2 = lemma_scan_after_done(d, m, None);
    assert(scan(r, Seq::empty(), None, None) == scan(r2, m, None, None));
}

/// A task item without a date field reads back with no next run time: its
/// message is the text before the first field mark, its interval that of a
/// `🔁` field if there is one, and it is completed exactly when it is checked.
/// This holds for any message that reads back and is free of the field marks,
/// and any completion text free of `📅` and `🔁` that does not end in
/// whitespace.
#[verifier::spinoff_prover]
pub proof fn parse_undated_line(
    m: Seq<char>,
    interval: Option<i64>,
    done: Option<Seq<char>>,
    id: int,
)
    requires
        message_reads_back(m),
        !has_char(m, REPEAT),
        !has_char(m, DONE_MARK),
        done matches Some(d) ==> !has_char(d, CALENDAR) && !has_char(d, REPEAT) && (d.len() > 0
            ==> !is_ws(d[d.len() - 1])),
    ensures
        parse_line_spec(undated_line(m, interval, done), id) == Some(
            ScheduleView {
                id: id,
                message: m,
                next_run_at: 0,
                interval_seconds: interval,
                status: if done is Some {
                    status_completed()
                } else {
                    status_active()
                },
                created_at: 0,
            },
        ),
{
    let line = undated_line(m, interval, done);
    let iv = match interval {
        Some(n) => seq![' ', REPEAT] + decimal(n as int),
        None => Seq::<char>::empty(),
    };
    let dn = done_field(done);
    let checkbox = if done is Some {
        seq!['-', ' ', '[', 'x', ']']
    } else {
        seq!['-', ' ', '[', ' ', ']']
    };
    assert(line =~= checkbox + seq![' '] + m + iv + dn);
    // the line has no whitespace to trim
    assert(!is_ws('-'));
    assert(!is_ws(DONE_MARK));
    assert(!is_ws(line[line.len() - 1])) by {
        match done {
            Some(d) => {
                if d.len() > 0 {
                    assert(line[line.len() - 1] == d[d.len() - 1]);
                } else {
                    assert(line[line.len() - 1] == DONE_MARK);
                }
            },
            None => {
                match interval {
                    Some(n) => {
                        lemma_decimal_last(n);
                        let dec = decimal(n as int);
                        assert(line[line.len() - 1] == dec[dec.len() - 1]);
                    },
                    None => {
                        assert(line[line.len() - 1] == m[m.len() - 1]);
                    },
                }
            },
        }
    }
    crate::text::lemma_trim_noop(line);
    let t = trim(line);
    assert(opens_done_box(t) == (done is Some));
    assert(opens_done_box(t) || opens_open_box(t));
    // the text after the checkbox
    let after_box = t.subrange(5, t.len() as int);
    let rest = m + iv + dn;
    assert(after_box =~= seq![' '] + rest);
    assert(after_box[1] == m[0]);
    lemma_trim_start_space(after_box);
    assert(after_box.drop_first() =~= rest);
    assert(rest[0] == m[0]);
    // the fields
    match interval {
        Some(n) => {
            assert(rest =~= m + seq![' ', REPEAT] + decimal(n as int) + done_field(done));
            lemma_scan_interval_first(m, n, done);
        },
        None => {
            match done {
                Some(d) => {
                    assert(rest =~= m + seq![' ', DONE_MARK] + d);
                    lemma_scan_done_first(m, d);
                },
                None => {
                    assert(rest =~= m);
                    reveal(scan);
                    lemma_find(m, CALENDAR);
                    lemma_find(m, REPEAT);
                    lemma_find(m, DONE_MARK);
                    crate::text::lemma_trim_noop(m);
                },
            }
        },
    }
    // the message
    lemma_strip_leading_id(m, PAUSE_MARK);
    lemma_strip_leading_id(m, RUNNING_MARK);
    crate::text::lemma_trim_noop(m);
}

// ───────────────────────── whole files ─────────────────────────

/// The pieces of `s` between `\n` characters (a final piece is always
/// present, possibly empty).
pub open spec fn split_lines(s: Seq<char>) -> Seq<Seq<char>>
    decreases s.len(),
{
    let p = find(s, '\n');
    if p >= s.len() {
        seq![s]
    } else {
        proof {
            lemma_find(s, '\n');
        }
        seq![s.subrange(0, p)] + split_lines(s.subrange(p + 1, s.len() as int))
    }
}

/// The schedules read from `lines`, numbered from `id` on: blank lines and
/// lines starting with `#` are skipped, and so are lines that are no task item.
pub open spec fn schedules_from(lines: Seq<Seq<char>>, id: int) -> Seq<ScheduleView>
    decreases lines.len(),
{
    if lines.len() == 0 {
        Seq::empty()
    } else {
        let t = trim(lines[0]);
        let rest = lines.drop_first();
        if t.len() == 0 || t[0] == '#' {
            schedules_from(rest, id)
        } else {
            match parse_line_spec(t, id) {
                Some(v) => seq![v] + schedules_from(rest, id + 1),
                None => schedules_from(rest, id),
            }
        }
    }
}

/// The schedules a task-list file holds, numbered from 1.
pub open spec fn parse_schedules_spec(content: Seq<char>) -> Seq<ScheduleView> {
    schedules_from(split_lines(content), 1)
}

proof fn lemma_find_shift(s: Seq<char>, c: char, i: int)
    requires
        0 <= i <= s.len(),
    ensures
        find(s.subrange(i, s.len() as int), c) == find_from(s, c, i) - i,
{
    let t = s.subrange(i, s.len() as int);
    lemma_find_from(s, c, i);
    let f = find_from(s, c, i);
    assert forall|k: int| 0 <= k < f - i implies t[k] != c by {
        assert(t[k] == s[k + i]);
    }
    if f < s.len() {
        assert(t[f - i] == s[f]);
    }
    lemma_find_at(t, c, f - i);
}

/// The schedules of a task-list file: lines are trimmed, blank lines and lines
/// starting with `#` are skipped, and the task items are numbered from 1.
pub fn parse_schedules(content: &str) -> (r: Vec<Schedule>)
    requires
        content@.len() < i64::MAX,
    ensures
        r@.map_values(|x: Schedule| x@) == parse_schedules_spec(content@),
{
    let v = chars_of(content);
    let n = v.len();
    let mut out: Vec<Schedule> = Vec::new();
    let mut id: i64 = 1;
    let mut pos: usize = 0;
    assert(v@.subrange(0, n as int) =~= v@);
    loop
        invariant
            pos <= n == v.len(),
            n < i64::MAX,
            1 <= id <= pos + 1,
            out@.map_values(|x: Schedule| x@) + schedules_from(
                split_lines(v@.subrange(pos as int, n as int)),
                id as int,
            ) == parse_schedules_spec(content@),
            v@ == content@,
        decreases n - pos,
    {
        let ghost rem = v@.subrange(pos as int, n as int);
        let p = find_char_from(&v, '\n', pos);
        proof {
            lemma_find_shift(v@, '\n', pos as int);
            lemma_find(rem, '\n');
        }
        let line = sub_chars(&v, pos, p);
        assert(line@ =~= rem.subrange(0, p - pos));
        let ghost rest_lines = if p < n {
            split_lines(rem.subrange(p - pos + 1, rem.len() as int))
        } else {
            Seq::<Seq<char>>::empty()
        };
        assert(split_lines(rem) =~= seq![line@] + rest_lines) by {
            if p >= n {
                assert(rem.subrange(0, p - pos) =~= rem);
            }
        }
        assert((seq![line@] + rest_lines).drop_first() =~= rest_lines);
        let t = trim_chars(&line);
        let ghost before = out@.map_values(|x: Schedule| x@);
        if !(t.len() == 0 || t[0] == '#') {
            let parsed = parse_line(string_of(&t).as_str(), id);
            match parsed {
                Some(sch) => {
                    out.push(sch);
                    assert(out@.map_values(|x: Schedule| x@) =~= before + seq![sch@]);
                    id = id + 1;
                },
                None => {},
            }
        }
        if p >= n {
            assert(schedules_from(rest_lines, id as int) =~= Seq::<ScheduleView>::empty());
            assert(out@.map_values(|x: Schedule| x@) =~= out@.map_values(|x: Schedule| x@)
                + Seq::<ScheduleView>::empty());
            return out;
        }
        proof {
            assert(v@.subrange(p as int + 1, n as int) =~= rem.subrange(
                p - pos + 1,
                rem.len() as int,
            ));
        }
        pos = p + 1;
    }
}

/// The text a schedule's next run time is written as.
pub open spec fn date_text(s: ScheduleView) -> Seq<char> {
    spec_format_timestamp(s.next_run_at as i64, iso_seconds_format())
}

/// The lines of the task list for `ss`, where the `i`-th completed schedule
/// is stamped with the time `nows[i]`, each line ended by `\n`.
pub open spec fn lines_text(ss: Seq<ScheduleView>, nows: Seq<i64>) -> Seq<char>
    decreases ss.len(),
{
    if ss.len() == 0 {
        Seq::empty()
    } else {
        format_line_spec(
            ss[0],
            date_text(ss[0]),
            spec_format_timestamp(nows[0], iso_seconds_format()),
        ) + seq!['\n'] + lines_text(ss.drop_first(), nows.drop_first())
    }
}

/// The task-list file for `ss`: the `# Tasks` header, a blank line, then one
/// line per schedule.
pub open spec fn render_spec(ss: Seq<ScheduleView>, nows: Seq<i64>) -> Seq<char> {
    header_spec() + lines_text(ss, nows)
}

proof fn lemma_lines_text_push(ss: Seq<ScheduleView>, nows: Seq<i64>, x: ScheduleView, now: i64)
    requires
        ss.len() == nows.len(),
    ensures
        lines_text(ss.push(x), nows.push(now)) == lines_text(ss, nows) + format_line_spec(
            x,
            date_text(x),
            spec_format_timestamp(now, iso_seconds_format()),
        ) + seq!['\n'],
    decreases ss.len(),
{
    let line = format_line_spec(x, date_text(x), spec_format_timestamp(now, iso_seconds_format()))
        + seq!['\n'];
    if ss.len() == 0 {
        assert(ss.push(x).drop_first() =~= Seq::<ScheduleView>::empty());
        assert(lines_text(Seq::<ScheduleView>::empty(), nows.push(now).drop_first())
            =~= Seq::<char>::empty());
        assert(lines_text(ss.push(x), nows.push(now)) =~= line);
        assert(lines_text(ss, nows) =~= Seq::<char>::empty());
    } else {
        lemma_lines_text_push(ss.drop_first(), nows.drop_first(), x, now);
        assert(ss.push(x).drop_first() =~= ss.drop_first().push(x));
        assert(nows.push(now).drop_first() =~= nows.drop_first().push(now));
        assert(ss.push(x)[0] == ss[0]);
        assert(nows.push(now)[0] == nows[0]);
        let first = format_line_spec(
            ss[0],
            date_text(ss[0]),
            spec_format_timestamp(nows[0], iso_seconds_format()),
        ) + seq!['\n'];
        assert(lines_text(ss.push(x), nows.push(now)) =~= first + (lines_text(
            ss.drop_first(),
            nows.drop_first(),
        ) + line));
    }
}

/// The text of the task-list file for `schedules` (see [`render_spec`]); the
/// completion stamps are read from the clock, one reading per completed line.
pub fn render_schedules(schedules: &Vec<Schedule>) -> (r: String)
    ensures
        exists|nows: Seq<i64>|
            nows.len() == schedules@.len() && r@ == #[trigger] render_spec(
                schedule_views(schedules@),
                nows,
            ),
        (forall|i: int|
            0 <= i < schedules@.len() ==> message_writes_back(#[trigger] schedules@[i]@.message))
            ==> parse_schedules_spec(r@) == Seq::new(
            schedules@.len(),
            |i: int| read_back(schedules@[i]@, i + 1),
        ),
{
    let header = "# Tasks\n\n";
    proof {
        reveal_strlit("# Tasks\n\n");
        assert(header@ =~= header_spec());
    }
    let mut out = String::new();
    push_str(&mut out, header);
    let ghost ss = schedule_views(schedules@);
    let ghost mut nows: Seq<i64> = Seq::empty();
    let mut k: usize = 0;
    assert(ss.take(0) =~= Seq::<ScheduleView>::empty());
    assert(out@ =~= render_spec(ss.take(0), nows));
    while k < schedules.len()
        invariant
            k <= schedules.len(),
            ss == schedule_views(schedules@),
            nows.len() == k,
            out@ == render_spec(ss.take(k as int), nows),
            forall|j: int|
                0 <= j < k ==> timestamp_text(
                    spec_format_timestamp(#[trigger] nows[j], iso_seconds_format()),
                ) && timestamp_text(date_text(ss[j])),
        decreases schedules.len() - k,
    {
        let line = format_line(&schedules[k]);
        let ghost now = choose|now: i64|
            line@ == format_line_spec(
                schedules@[k as int]@,
                spec_format_timestamp(schedules@[k as int].next_run_at, iso_seconds_format()),
                #[trigger] spec_format_timestamp(now, iso_seconds_format()),
            ) && timestamp_text(spec_format_timestamp(now, iso_seconds_format()));
        push_str(&mut out, line.as_str());
        push_char(&mut out, '\n');
        proof {
            let x = schedules@[k as int]@;
            assert(ss[k as int] == x);
            assert(ss.take(k as int).push(x) =~= ss.take(k + 1));
            lemma_lines_text_push(ss.take(k as int), nows, x, now);
            nows = nows.push(now);
            assert(out@ =~= render_spec(ss.take(k + 1), nows));
        }
        k = k + 1;
    }
    assert(ss.take(k as int) =~= ss);
    proof {
        if forall|i: int|
            0 <= i < schedules@.len() ==> message_writes_back(#[trigger] schedules@[i]@.message) {
            assert forall|i: int| 0 <= i < ss.len() implies writes_back(#[trigger] ss[i], nows[i]) by {
                assert(ss[i] == schedules@[i]@);
                assert(message_writes_back(schedules@[i]@.message));
                assert(timestamp_text(spec_format_timestamp(nows[i], iso_seconds_format())));
                lemma_timestamp_reads_back(date_text(ss[i]));
                lemma_timestamp_reads_back(spec_format_timestamp(nows[i], iso_seconds_format()));
            }
            render_then_parse(ss, nows);
            assert(Seq::new(ss.len(), |i: int| read_back(ss[i], i + 1)) =~= Seq::new(
                schedules@.len(),
                |i: int| read_back(schedules@[i]@, i + 1),
            ));
        }
    }
    out
}

/// Whether the message `m` is given back unchanged by a saved task-list file
/// (see [`message_writes_back`]).
pub fn message_saves_back(m: &str) -> (r: bool)
    ensures
        r == message_writes_back(m@),
{
    let v = chars_of(m);
    let n = v.len();
    if n == 0 {
        return false;
    }
    let first = v[0];
    let last = v[n - 1];
    if crate::text::is_whitespace(first) || crate::text::is_whitespace(last) || first == PAUSE_MARK
        || first == RUNNING_MARK {
        return false;
    }
    let cal = find_char_from(&v, CALENDAR, 0);
    let nl = find_char_from(&v, '\n', 0);
    proof {
        lemma_find(v@, CALENDAR);
        lemma_find(v@, '\n');
    }
    cal == n && nl == n
}

/// Whether every schedule's message is given back unchanged by a saved
/// task-list file, so that reading back what [`render_schedules`] writes gives
/// the schedules back.
pub fn schedules_save_back(schedules: &Vec<Schedule>) -> (r: bool)
    ensures
        r == forall|i: int|
            0 <= i < schedules@.len() ==> message_writes_back(#[trigger] schedules@[i]@.message),
{
    let mut k: usize = 0;
    while k < schedules.len()
        invariant
            k <= schedules@.len(),
            forall|i: int| 0 <= i < k ==> message_writes_back(#[trigger] schedules@[i]@.message),
        decreases schedules.len() - k,
    {
        if !message_saves_back(schedules[k].message.as_str()) {
            assert(!message_writes_back(schedules@[k as int]@.message));
            return false;
        }
        k = k + 1;
    }
    true
}

/// A message that a saved task-list file gives back unchanged: one that reads
/// back (see [`message_reads_back`]) and holds no line break.
pub open spec fn message_writes_back(m: Seq<char>) -> bool {
    message_reads_back(m) && !has_char(m, '\n')
}

/// What a schedule reads back as from its written line, numbered `id`.
pub open spec fn read_back(s: ScheduleView, id: int) -> ScheduleView {
    ScheduleView {
        id: id,
        message: s.message,
        next_run_at: match date_value(date_text(s), None) {
            Some(n) => n as int,
            None => 0,
        },
        interval_seconds: s.interval_seconds,
        status: normalized_status(s.status),
        created_at: 0,
    }
}

/// Whether the line for `s`, stamped with the time `now` if completed, stays
/// on one line and reads back (see [`format_then_parse_line`]).
pub open spec fn writes_back(s: ScheduleView, now: i64) -> bool {
    let done = spec_format_timestamp(now, iso_seconds_format());
    &&& message_reads_back(s.message)
    &&& !has_char(s.message, '\n')
    &&& date_reads_back(date_text(s))
    &&& !has_char(date_text(s), '\n')
    &&& !has_char(done, CALENDAR)
    &&& !has_char(done, REPEAT)
    &&& !has_char(done, '\n')
}

proof fn lemma_split_lines_cons(a: Seq<char>, b: Seq<char>)
    requires
        !has_char(a, '\n'),
    ensures
        split_lines(a + seq!['\n'] + b) == seq![a] + split_lines(b),
{
    let s = a + seq!['\n'] + b;
    assert forall|k: int| 0 <= k < a.len() implies s[k] != '\n' by {
        assert(s[k] == a[k]);
    }
    assert(s[a.len() as int] == '\n');
    lemma_find_at(s, '\n', a.len() as int);
    assert(s.subrange(0, a.len() as int) =~= a);
    assert(s.subrange(a.len() as int + 1, s.len() as int) =~= b);
}

proof fn lemma_line_no_newline(s: ScheduleView, date: Seq<char>, done: Seq<char>)
    requires
        !has_char(s.message, '\n'),
        !has_char(date, '\n'),
        !has_char(done, '\n'),
    ensures
        !has_char(format_line_spec(s, date, done), '\n'),
{
    let l = format_line_spec(s, date, done);
    lemma_format_parts(s, date, done);
    let head = line_head(s);
    let prefix = if s.status == status_paused() {
        seq![PAUSE_MARK]
    } else {
        Seq::<char>::empty()
    };
    let checkbox = if s.status == status_completed() {
        seq!['-', ' ', '[', 'x', ']']
    } else {
        seq!['-', ' ', '[', ' ', ']']
    };
    let pre = checkbox + seq![' '] + prefix;
    assert(head =~= pre + s.message + seq![' ', CALENDAR]);
    assert(!has_char(pre, '\n'));
    assert(!has_char(seq![' ', CALENDAR], '\n'));
    lemma_has_concat(pre, s.message, '\n');
    lemma_has_concat(pre + s.message, seq![' ', CALENDAR], '\n');
    let iv = match s.interval_seconds {
        Some(n) => seq![' ', REPEAT] + decimal(n as int),
        None => Seq::<char>::empty(),
    };
    let dn = if s.status == status_completed() {
        seq![' ', DONE_MARK] + done
    } else {
        Seq::<char>::empty()
    };
    assert(line_tail(s, done) == iv + dn);
    match s.interval_seconds {
        Some(n) => {
            lemma_decimal_newline(n);
            assert(!has_char(seq![' ', REPEAT], '\n'));
            lemma_has_concat(seq![' ', REPEAT], decimal(n as int), '\n');
        },
        None => {},
    }
    assert(!has_char(seq![' ', DONE_MARK], '\n'));
    lemma_has_concat(seq![' ', DONE_MARK], done, '\n');
    lemma_has_concat(iv, dn, '\n');
    lemma_has_concat(head, date, '\n');
    lemma_has_concat(head + date, line_tail(s, done), '\n');
}

proof fn lemma_decimal_newline(n: i64)
    ensures
        !has_char(decimal(n as int), '\n'),
{
    let d = decimal(n as int);
    let m: nat = if n < 0 {
        (-n) as nat
    } else {
        n as nat
    };
    crate::text::lemma_digits_of(m);
    let g = crate::text::digits_of(m);
    if has_char(d, '\n') {
        let k = choose|k: int| 0 <= k < d.len() && d[k] == '\n';
        if n < 0 {
            if k > 0 {
                assert(d[k] == g[k - 1]);
                assert(crate::text::is_digit(g[k - 1]));
            }
        } else {
            assert(d[k] == g[k]);
            assert(crate::text::is_digit(g[k]));
        }
    }
}

proof fn lemma_lines_read_back(ss: Seq<ScheduleView>, nows: Seq<i64>, id: int)
    requires
        nows.len() == ss.len(),
        forall|i: int| 0 <= i < ss.len() ==> writes_back(#[trigger] ss[i], nows[i]),
    ensures
        schedules_from(split_lines(lines_text(ss, nows)), id) == Seq::new(
            ss.len(),
            |i: int| read_back(ss[i], id + i),
        ),
    decreases ss.len(),
{
    if ss.len() == 0 {
        let e = Seq::<char>::empty();
        assert(lines_text(ss, nows) == e);
        lemma_find(e, '\n');
        assert(split_lines(e) == seq![e]);
        assert(trim(e) =~= e) by {
            assert(skip_ws(e, 0) == 0);
        }
        assert(seq![e].drop_first() =~= Seq::<Seq<char>>::empty());
        assert(seq![e][0] == e);
        assert(schedules_from(Seq::<Seq<char>>::empty(), id) == Seq::<ScheduleView>::empty());
        assert(schedules_from(seq![e], id) == Seq::<ScheduleView>::empty());
        assert(Seq::new(ss.len(), |i: int| read_back(ss[i], id + i)) =~= Seq::<
            ScheduleView,
        >::empty());
    } else {
        let x = ss[0];
        assert(writes_back(ss[0], nows[0]));
        let done = spec_format_timestamp(nows[0], iso_seconds_format());
        let l0 = format_line_spec(x, date_text(x), done);
        let rest_text = lines_text(ss.drop_first(), nows.drop_first());
        assert(lines_text(ss, nows) == l0 + seq!['\n'] + rest_text);
        lemma_line_no_newline(x, date_text(x), done);
        lemma_split_lines_cons(l0, rest_text);
        let lines = seq![l0] + split_lines(rest_text);
        assert(lines[0] == l0);
        assert(lines.drop_first() =~= split_lines(rest_text));
        let done2 = lemma_trim_line(x, date_text(x), done);
        lemma_has_subrange(done, 0, done2.len() as int, CALENDAR);
        lemma_has_subrange(done, 0, done2.len() as int, REPEAT);
        let t = trim(l0);
        assert(t == format_line_spec(x, date_text(x), done2));
        lemma_format_parts(x, date_text(x), done2);
        assert(t[0] == '-');
        format_then_parse_line(x, date_text(x), done2, id);
        assert(parse_line_spec(t, id) == Some(read_back(x, id)));
        assert(t.len() > 0);
        assert(split_lines(lines_text(ss, nows)) == lines);
        assert forall|i: int| 0 <= i < ss.drop_first().len() implies writes_back(
            #[trigger] ss.drop_first()[i],
            nows.drop_first()[i],
        ) by {
            assert(ss.drop_first()[i] == ss[i + 1]);
            assert(writes_back(ss[i + 1], nows[i + 1]));
        }
        lemma_lines_read_back(ss.drop_first(), nows.drop_first(), id + 1);
        assert(schedules_from(lines, id) == seq![read_back(x, id)] + schedules_from(
            split_lines(rest_text),
            id + 1,
        ));
        assert(Seq::new(ss.len(), |i: int| read_back(ss[i], id + i)) =~= seq![read_back(x, id)]
            + Seq::new(ss.drop_first().len(), |i: int| read_back(ss.drop_first()[i], id + 1 + i)));
    }
}

/// Reading a written task-list file gives back its schedules, numbered from 1,
/// each as [`read_back`] describes, when each line reads back (see
/// [`writes_back`]).
pub proof fn render_then_parse(ss: Seq<ScheduleView>, nows: Seq<i64>)
    requires
        nows.len() == ss.len(),
        forall|i: int| 0 <= i < ss.len() ==> writes_back(#[trigger] ss[i], nows[i]),
    ensures
        parse_schedules_spec(render_spec(ss, nows)) == Seq::new(
            ss.len(),
            |i: int| read_back(ss[i], i + 1),
        ),
{
    let body = lines_text(ss, nows);
    let h1 = seq!['#', ' ', 'T', 'a', 's', 'k', 's'];
    let e = Seq::<char>::empty();
    assert(render_spec(ss, nows) =~= h1 + seq!['\n'] + (e + seq!['\n'] + body));
    assert(!has_char(h1, '\n'));
    assert(!has_char(e, '\n'));
    lemma_split_lines_cons(h1, e + seq!['\n'] + body);
    lemma_split_lines_cons(e, body);
    let lines = seq![h1] + (seq![e] + split_lines(body));
    assert(lines.drop_first() =~= seq![e] + split_lines(body));
    assert((seq![e] + split_lines(body)).drop_first() =~= split_lines(body));
    assert(trim(h1) == h1) by {
        crate::text::lemma_trim_noop(h1);
    }
    assert(trim(e) =~= e) by {
        assert(skip_ws(e, 0) == 0);
    }
    assert(lines[0] == h1);
    assert((seq![e] + split_lines(body))[0] == e);
    lemma_lines_read_back(ss, nows, 1);
    assert(split_lines(render_spec(ss, nows)) == lines);
    assert(schedules_from(lines, 1) == schedules_from(seq![e] + split_lines(body), 1));
    assert(schedules_from(seq![e] + split_lines(body), 1) == schedules_from(split_lines(body), 1));
}

} // verus!
