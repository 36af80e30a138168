//! Where sessions are stored: the row types of a session database and their
//! conversions, the paths of session databases, and which files are ones.
use vstd::prelude::*;

use crate::session::{Message, Metadata, Schedule, SessionSnapshot};
use crate::text::{
    starts_with_chars, string_of, sub_chars, chars_of, decimal_u64_chars, digits_of, owned, path_join, path_join_spec, push_chars, push_str,
};

verus! {

/// The row of the `session_meta` table.
#[derive(Debug)]
pub struct MetadataRow {
    pub session_id: String,
    pub creator: String,
    pub created_at: i64,
    pub archive_at: Option<i64>,
}

/// A row of the `messages` table.
#[derive(Debug)]
pub struct MessageRow {
    pub id: i64,
    pub timestamp: i64,
    pub content: String,
    pub role: String,
    pub tag: Option<String>,
}

/// A row of the `schedules` table.
#[derive(Debug)]
pub struct ScheduleRow {
    pub id: i64,
    pub message: String,
    pub next_run_at: i64,
    pub interval_seconds: Option<i64>,
    pub status: String,
    pub created_at: i64,
}

/// The metadata a `session_meta` row holds.
pub open spec fn metadata_of_row(r: MetadataRow) -> Metadata {
    Metadata {
        session_id: r.session_id,
        creator: r.creator,
        created_at: r.created_at,
        archive_at: r.archive_at,
    }
}

/// The message a `messages` row holds.
pub open spec fn message_of_row(r: MessageRow) -> Message {
    Message { id: r.id, timestamp: r.timestamp, content: r.content, role: r.role, tag: r.tag }
}

/// The `messages` row of a message.
pub open spec fn row_of_message(m: Message) -> MessageRow {
    MessageRow { id: m.id, timestamp: m.timestamp, content: m.content, role: m.role, tag: m.tag }
}

/// The schedule a `schedules` row holds.
pub open spec fn schedule_of_row(r: ScheduleRow) -> Schedule {
    Schedule {
        id: r.id,
        message: r.message,
        next_run_at: r.next_run_at,
        interval_seconds: r.interval_seconds,
        status: r.status,
        created_at: r.created_at,
    }
}

impl From<MetadataRow> for Metadata {
    fn from(r: MetadataRow) -> (m: Self) {
        Metadata {
            session_id: r.session_id,
            creator: r.creator,
            created_at: r.created_at,
            archive_at: r.archive_at,
        }
    }
}

impl vstd::std_specs::convert::FromSpecImpl<MetadataRow> for Metadata {
    open spec fn obeys_from_spec() -> bool {
        true
    }

    open spec fn from_spec(r: MetadataRow) -> Self {
        metadata_of_row(r)
    }
}

impl From<Message> for MessageRow {
    fn from(m: Message) -> (r: Self) {
        MessageRow { id: m.id, timestamp: m.timestamp, content: m.content, role: m.role, tag: m.tag }
    }
}

impl vstd::std_specs::convert::FromSpecImpl<Message> for MessageRow {
    open spec fn obeys_from_spec() -> bool {
        true
    }

    open spec fn from_spec(m: Message) -> Self {
        row_of_message(m)
    }
}

impl From<MessageRow> for Message {
    fn from(r: MessageRow) -> (m: Self) {
        Message { id: r.id, timestamp: r.timestamp, content: r.content, role: r.role, tag: r.tag }
    }
}

impl vstd::std_specs::convert::FromSpecImpl<MessageRow> for Message {
    open spec fn obeys_from_spec() -> bool {
        true
    }

    open spec fn from_spec(r: MessageRow) -> Self {
        message_of_row(r)
    }
}

impl From<ScheduleRow> for Schedule {
    fn from(r: ScheduleRow) -> (s: Self) {
        Schedule {
            id: r.id,
            message: r.message,
            next_run_at: r.next_run_at,
            interval_seconds: r.interval_seconds,
            status: r.status,
            created_at: r.created_at,
        }
    }
}

impl vstd::std_specs::convert::FromSpecImpl<ScheduleRow> for Schedule {
    open spec fn obeys_from_spec() -> bool {
        true
    }

    open spec fn from_spec(r: ScheduleRow) -> Self {
        schedule_of_row(r)
    }
}

/// The metadata of a session that `creator` opens at time `now`: not due for
/// archiving.
pub fn new_metadata(session_id: String, creator: String, now: i64) -> (m: Metadata)
    ensures
        m.session_id == session_id,
        m.creator == creator,
        m.created_at == now,
        m.archive_at is None,
{
    Metadata { session_id, creator, created_at: now, archive_at: None }
}

/// The `session_meta` row of a session's metadata.
pub fn row_of_metadata(m: &Metadata) -> (r: MetadataRow)
    ensures
        metadata_of_row(r) == *m,
{
    MetadataRow {
        session_id: m.session_id.clone(),
        creator: m.creator.clone(),
        created_at: m.created_at,
        archive_at: m.archive_at,
    }
}

/// Why the session store refused an operation.
#[derive(Debug, PartialEq, Eq)]
pub enum StoreError {
    /// A new session's database file is already there.
    AlreadyExists(String),
    /// No open database for the session.
    PoolNotFound(String),
    /// The session is not among the open ones.
    NotInMemory(String),
}

impl StoreError {
    /// The error message, ending with the path or the session id.
    pub fn message(&self) -> (r: String)
        ensures
            match self {
                StoreError::AlreadyExists(p) => r@ == "Session database already exists: "@ + p@,
                StoreError::PoolNotFound(id) => r@ == "Session pool not found: "@ + id@,
                StoreError::NotInMemory(id) => r@ == "Session not found in memory: "@ + id@,
            },
    {
        match self {
            StoreError::AlreadyExists(p) => {
                let mut r = owned("Session database already exists: ");
                push_str(&mut r, p.as_str());
                r
            },
            StoreError::PoolNotFound(id) => {
                let mut r = owned("Session pool not found: ");
                push_str(&mut r, id.as_str());
                r
            },
            StoreError::NotInMemory(id) => {
                let mut r = owned("Session not found in memory: ");
                push_str(&mut r, id.as_str());
                r
            },
        }
    }
}

/// The connection address of the SQLite database at `path`.
pub fn sqlite_url(path: &str) -> (r: String)
    ensures
        r@ == "sqlite://"@ + path@,
{
    let mut r = owned("sqlite://");
    push_str(&mut r, path);
    r
}

/// The database file of the address `url`: what follows `sqlite://`; the
/// error text `Invalid session db_url: ` and the address where it does not
/// start so.
pub fn db_file_of_url(url: &str) -> (r: Result<String, String>)
    ensures
        url@.len() >= 9 && url@.subrange(0, 9) == "sqlite://"@ ==> (r matches Ok(p) && p@
            == url@.subrange(9, url@.len() as int)),
        !(url@.len() >= 9 && url@.subrange(0, 9) == "sqlite://"@) ==> (r matches Err(e) && e@
            == "Invalid session db_url: "@ + url@),
{
    let v = chars_of(url);
    let prefix = chars_of("sqlite://");
    proof {
        reveal_strlit("sqlite://");
    }
    assert(prefix@.len() == 9);
    if starts_with_chars(&v, &prefix) {
        let rest = sub_chars(&v, 9, v.len());
        Ok(string_of(&rest))
    } else {
        let mut e = owned("Invalid session db_url: ");
        push_str(&mut e, url);
        Err(e)
    }
}

/// Whether `msg` is new: a message not stored yet carries the id `-1`; the
/// error text otherwise.
pub fn check_unsaved(msg: &Message) -> (r: Result<(), String>)
    ensures
        r is Ok <==> msg.id == -1,
        r matches Err(e) ==> e@ == "msg.id should == -1"@,
{
    if msg.id == -1 {
        Ok(())
    } else {
        Err(owned("msg.id should == -1"))
    }
}

/// A `session_meta` table that does not hold exactly one row.
#[derive(Debug, PartialEq, Eq, Structural)]
pub struct RowCountError {
    pub found: usize,
}

impl RowCountError {
    /// The error message: `session_meta must contain exactly 1 row, found `
    /// and the count.
    pub fn message(&self) -> (r: String)
        ensures
            r@ == "session_meta must contain exactly 1 row, found "@ + digits_of(self.found as nat),
    {
        let mut r = owned("session_meta must contain exactly 1 row, found ");
        let digits = decimal_u64_chars(self.found as u64);
        push_chars(&mut r, &digits);
        r
    }
}

/// The one row of the `session_meta` table.
pub fn single_metadata_row(rows: Vec<MetadataRow>) -> (r: Result<MetadataRow, RowCountError>)
    ensures
        rows@.len() == 1 ==> r == Ok::<MetadataRow, RowCountError>(rows@[0]),
        rows@.len() != 1 ==> r == Err::<MetadataRow, RowCountError>(
            RowCountError { found: rows@.len() as usize },
        ),
{
    let n = rows.len();
    if n != 1 {
        return Err(RowCountError { found: n });
    }
    let mut rows = rows;
    Ok(rows.remove(0))
}

/// A stored session from the rows of its database.
pub fn snapshot_from_rows(
    meta: MetadataRow,
    messages: Vec<MessageRow>,
    schedules: Vec<ScheduleRow>,
) -> (s: SessionSnapshot)
    ensures
        s.metadata == metadata_of_row(meta),
        s.messages@.len() == messages@.len(),
        forall|i: int| 0 <= i < messages@.len() ==> s.messages@[i] == message_of_row(#[trigger] messages@[i]),
        s.schedules@.len() == schedules@.len(),
        forall|i: int| 0 <= i < schedules@.len() ==> s.schedules@[i] == schedule_of_row(#[trigger] schedules@[i]),
{
    let metadata = Metadata::from(meta);
    let ghost all_m = messages@;
    let mut ms: Vec<Message> = Vec::new();
    let mut messages = messages;
    while messages.len() > 0
        invariant
            ms@.len() + messages@.len() == all_m.len(),
            messages@ == all_m.subrange(ms@.len() as int, all_m.len() as int),
            forall|i: int| 0 <= i < ms@.len() ==> ms@[i] == message_of_row(#[trigger] all_m[i]),
        decreases messages.len(),
    {
        let row = messages.remove(0);
        ms.push(Message::from(row));
        assert(messages@ =~= all_m.subrange(ms@.len() as int, all_m.len() as int));
    }
    let ghost all_s = schedules@;
    let mut ss: Vec<Schedule> = Vec::new();
    let mut schedules = schedules;
    while schedules.len() > 0
        invariant
            ss@.len() + schedules@.len() == all_s.len(),
            schedules@ == all_s.subrange(ss@.len() as int, all_s.len() as int),
            forall|i: int| 0 <= i < ss@.len() ==> ss@[i] == schedule_of_row(#[trigger] all_s[i]),
        decreases schedules.len(),
    {
        let row = schedules.remove(0);
        ss.push(Schedule::from(row));
        assert(schedules@ =~= all_s.subrange(ss@.len() as int, all_s.len() as int));
    }
    SessionSnapshot { metadata, messages: ms, schedules: ss }
}

// ───────────────────────── paths ─────────────────────────

/// The directory of active session databases under `base`.
pub open spec fn sessions_dir_spec(base: Seq<char>) -> Seq<char> {
    path_join_spec(base, "sessions"@)
}

/// The directory of archived session databases under `base`.
pub open spec fn archive_dir_spec(base: Seq<char>) -> Seq<char> {
    path_join_spec(sessions_dir_spec(base), "archive"@)
}

/// The file name of the database of session `sid`.
pub open spec fn db_file_name(sid: Seq<char>) -> Seq<char> {
    sid + ".sqlite"@
}

/// The directory of active session databases under `base`.
pub fn sessions_dir(base: &str) -> (r: String)
    ensures
        r@ == sessions_dir_spec(base@),
{
    path_join(base, "sessions")
}

/// The directory of archived session databases under `base`.
pub fn archive_dir(base: &str) -> (r: String)
    ensures
        r@ == archive_dir_spec(base@),
{
    let s = sessions_dir(base);
    path_join(s.as_str(), "archive")
}

fn db_name(sid: &str) -> (r: String)
    ensures
        r@ == db_file_name(sid@),
{
    let mut n = owned(sid);
    push_str(&mut n, ".sqlite");
    n
}

/// The database of active session `sid` under `base`.
pub fn db_path(base: &str, sid: &str) -> (r: String)
    ensures
        r@ == path_join_spec(sessions_dir_spec(base@), db_file_name(sid@)),
{
    let d = sessions_dir(base);
    let n = db_name(sid);
    path_join(d.as_str(), n.as_str())
}

/// Where the database of session `sid` under `base` goes when archived.
pub fn archived_db_path(base: &str, sid: &str) -> (r: String)
    ensures
        r@ == path_join_spec(archive_dir_spec(base@), db_file_name(sid@)),
{
    let d = archive_dir(base);
    let n = db_name(sid);
    path_join(d.as_str(), n.as_str())
}

/// The last index of `c` in `s`, or -1.
pub open spec fn rfind(s: Seq<char>, c: char) -> int
    decreases s.len(),
{
    if s.len() == 0 {
        -1
    } else if s.last() == c {
        s.len() - 1
    } else {
        rfind(s.drop_last(), c)
    }
}

/// The extension of a file name, as `Path::extension` gives it: the text after
/// the last `.`, when there is a `.` that is not the first character.
pub open spec fn extension_spec(name: Seq<char>) -> Option<Seq<char>> {
    let i = rfind(name, '.');
    if i > 0 {
        Some(name.subrange(i + 1, name.len() as int))
    } else {
        None
    }
}

proof fn lemma_rfind(s: Seq<char>, c: char)
    ensures
        -1 <= rfind(s, c) < s.len(),
        rfind(s, c) >= 0 ==> s[rfind(s, c)] == c,
        forall|k: int| rfind(s, c) < k < s.len() ==> s[k] != c,
    decreases s.len(),
{
    if s.len() > 0 && s.last() != c {
        lemma_rfind(s.drop_last(), c);
        assert forall|k: int| rfind(s, c) < k < s.len() implies s[k] != c by {
            if k < s.len() - 1 {
                assert(s.drop_last()[k] == s[k]);
            }
        }
    }
}

/// The extension of the file name `name` (see [`extension_spec`]).
pub fn extension(name: &str) -> (r: Option<String>)
    ensures
        match r {
            Some(e) => extension_spec(name@) == Some(e@),
            None => extension_spec(name@) is None,
        },
{
    let v = chars_of(name);
    let mut j = v.len();
    assert(v@.subrange(0, j as int) =~= v@);
    while j > 0 && v[j - 1] != '.'
        invariant
            j <= v.len(),
            rfind(v@.subrange(0, j as int), '.') == rfind(v@, '.'),
        decreases j,
    {
        let ghost pre = v@.subrange(0, j as int);
        assert(pre.drop_last() =~= v@.subrange(0, j - 1));
        j = j - 1;
    }
    if j <= 1 {
        proof {
            if j == 1 {
                assert(v@.subrange(0, 1).last() == '.');
            }
            assert(rfind(v@.subrange(0, j as int), '.') == j as int - 1);
        }
        return None;
    }
    proof {
        assert(v@.subrange(0, j as int).last() == '.');
    }
    let e = crate::text::sub_chars(&v, j, v.len());
    Some(crate::text::string_of(&e))
}

/// Whether a directory entry found under the sessions directory is a session
/// database: a file directly in that directory with the extension `sqlite`
/// (so the `archive` directory is left out).
pub fn is_session_db(depth: usize, is_file: bool, file_name: &str) -> (r: bool)
    ensures
        r == (depth == 1 && is_file && extension_spec(file_name@) == Some("sqlite"@)),
{
    if depth != 1 || !is_file {
        return false;
    }
    match extension(file_name) {
        Some(e) => e == owned("sqlite"),
        None => false,
    }
}

} // verus!
