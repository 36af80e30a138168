//! Session entities: metadata, messages, schedules, and the in-memory session table.
use vstd::prelude::*;

use crate::keyed::{has_key, keys_distinct, KeyedVec};
use crate::llm::clone_opt;
use crate::text::{owned, push_str};

verus! {

/// A scheduled message of a session.
#[derive(Debug, Clone)]
pub struct Schedule {
    pub id: i64,
    pub message: String,
    pub next_run_at: i64,
    pub interval_seconds: Option<i64>,
    pub status: String,
    pub created_at: i64,
}

/// The mathematical value of a [`Schedule`].
pub struct ScheduleView {
    pub id: int,
    pub message: Seq<char>,
    pub next_run_at: int,
    pub interval_seconds: Option<i64>,
    pub status: Seq<char>,
    pub created_at: int,
}

impl View for Schedule {
    type V = ScheduleView;

    open spec fn view(&self) -> ScheduleView {
        ScheduleView {
            id: self.id as int,
            message: self.message@,
            next_run_at: self.next_run_at as int,
            interval_seconds: self.interval_seconds,
            status: self.status@,
            created_at: self.created_at as int,
        }
    }
}

/// The views of a sequence of schedules.
pub open spec fn schedule_views(ss: Seq<Schedule>) -> Seq<ScheduleView> {
    ss.map_values(|x: Schedule| x@)
}

/// The metadata of a session.
#[derive(Debug)]
pub struct Metadata {
    pub session_id: String,
    pub creator: String,
    pub created_at: i64,
    pub archive_at: Option<i64>,
}

impl Clone for Metadata {
    fn clone(&self) -> (r: Self)
        ensures
            r == *self,
    {
        Metadata {
            session_id: self.session_id.clone(),
            creator: self.creator.clone(),
            created_at: self.created_at,
            archive_at: self.archive_at,
        }
    }
}

/// A message of a session.
#[derive(Debug)]
pub struct Message {
    pub id: i64,
    pub timestamp: i64,
    pub content: String,
    pub role: String,
    pub tag: Option<String>,
}

impl Clone for Message {
    fn clone(&self) -> (r: Self)
        ensures
            r == *self,
    {
        Message {
            id: self.id,
            timestamp: self.timestamp,
            content: self.content.clone(),
            role: self.role.clone(),
            tag: clone_opt(&self.tag),
        }
    }
}

/// A copy of a list of messages.
pub fn clone_messages(v: &Vec<Message>) -> (r: Vec<Message>)
    ensures
        r@ == v@,
{
    let mut r: Vec<Message> = Vec::new();
    let mut k: usize = 0;
    while k < v.len()
        invariant
            k <= v.len(),
            r@ == v@.subrange(0, k as int),
        decreases v.len() - k,
    {
        r.push(v[k].clone());
        k = k + 1;
        assert(r@ =~= v@.subrange(0, k as int));
    }
    assert(v@.subrange(0, v@.len() as int) =~= v@);
    r
}

/// A session as stored: metadata, messages and schedules.
#[derive(Debug)]
pub struct SessionSnapshot {
    pub metadata: Metadata,
    pub messages: Vec<Message>,
    pub schedules: Vec<Schedule>,
}

/// A session in memory, with the handlers told of each new message.
#[derive(Debug)]
pub struct Session<H> {
    pub metadata: Metadata,
    pub messages: Vec<Message>,
    pub schedules: Vec<Schedule>,
    pub handlers: Vec<H>,
}

impl<H> Session<H> {
    /// A fresh session: no messages, schedules or handlers.
    pub fn new(metadata: Metadata) -> (r: Self)
        ensures
            r.metadata == metadata,
            r.messages@.len() == 0,
            r.schedules@.len() == 0,
            r.handlers@.len() == 0,
    {
        Session { metadata, messages: Vec::new(), schedules: Vec::new(), handlers: Vec::new() }
    }

    /// A stored session brought back into memory, with no handlers.
    pub fn from_snapshot(snap: SessionSnapshot) -> (r: Self)
        ensures
            r.metadata == snap.metadata,
            r.messages == snap.messages,
            r.schedules == snap.schedules,
            r.handlers@.len() == 0,
    {
        Session {
            metadata: snap.metadata,
            messages: snap.messages,
            schedules: snap.schedules,
            handlers: Vec::new(),
        }
    }
}

/// A session that is not in the table.
#[derive(Debug, PartialEq, Eq)]
pub enum SessionError {
    NotFound(String),
}

impl SessionError {
    /// The error message: `Session not found: ` and the id.
    pub fn message(&self) -> (r: String)
        ensures
            match self {
                SessionError::NotFound(id) => r@ == "Session not found: "@ + id@,
            },
    {
        match self {
            SessionError::NotFound(id) => {
                let mut r = owned("Session not found: ");
                push_str(&mut r, id.as_str());
                r
            },
        }
    }
}

/// The mathematical value of a [`Session`].
pub struct SessionView<H> {
    pub metadata: Metadata,
    pub messages: Seq<Message>,
    pub schedules: Seq<Schedule>,
    pub handlers: Seq<H>,
}

impl<H> View for Session<H> {
    type V = SessionView<H>;

    open spec fn view(&self) -> SessionView<H> {
        SessionView {
            metadata: self.metadata,
            messages: self.messages@,
            schedules: self.schedules@,
            handlers: self.handlers@,
        }
    }
}

/// A fresh session with metadata `m`.
pub open spec fn fresh_session<H>(m: Metadata) -> SessionView<H> {
    SessionView { metadata: m, messages: Seq::empty(), schedules: Seq::empty(), handlers: Seq::empty() }
}

/// The session a snapshot is brought back as.
pub open spec fn snapshot_session<H>(snap: SessionSnapshot) -> SessionView<H> {
    SessionView {
        metadata: snap.metadata,
        messages: snap.messages@,
        schedules: snap.schedules@,
        handlers: Seq::empty(),
    }
}

/// The table after loading `snaps` in order, each under its own session id.
pub open spec fn load_snapshots_spec<H>(
    m: Map<Seq<char>, SessionView<H>>,
    snaps: Seq<SessionSnapshot>,
) -> Map<Seq<char>, SessionView<H>>
    decreases snaps.len(),
{
    if snaps.len() == 0 {
        m
    } else {
        load_snapshots_spec(m, snaps.drop_last()).insert(
            snaps.last().metadata.session_id@,
            snapshot_session(snaps.last()),
        )
    }
}

/// `s` with the handler `h` added.
pub open spec fn with_handler<H>(s: SessionView<H>, h: H) -> SessionView<H> {
    SessionView { handlers: s.handlers.push(h), ..s }
}

/// `s` with the message `m` added.
pub open spec fn with_message<H>(s: SessionView<H>, m: Message) -> SessionView<H> {
    SessionView { messages: s.messages.push(m), ..s }
}

/// `s` with its archive time set to `at`.
pub open spec fn with_archive_at<H>(s: SessionView<H>, at: Option<i64>) -> SessionView<H> {
    SessionView { metadata: Metadata { archive_at: at, ..s.metadata }, ..s }
}

/// The archive time of session `sid`, or `None` when there is no such session.
pub open spec fn archive_at_of<H>(m: Map<Seq<char>, SessionView<H>>, sid: Seq<char>) -> Option<
    Option<i64>,
> {
    if m.contains_key(sid) {
        Some(m[sid].metadata.archive_at)
    } else {
        None
    }
}

/// Whether `s` is due for archiving at time `now`.
pub open spec fn is_expired<H>(s: SessionView<H>, now: i64) -> bool {
    match s.metadata.archive_at {
        Some(t) => t <= now,
        None => false,
    }
}

/// The sessions in memory, by id.
pub struct SessionTable<H> {
    sessions: KeyedVec<Session<H>>,
}

impl<H> View for SessionTable<H> {
    type V = Map<Seq<char>, SessionView<H>>;

    closed spec fn view(&self) -> Map<Seq<char>, SessionView<H>> {
        self.sessions@.map_values(|s: Session<H>| s@)
    }
}

impl<H> SessionTable<H> {
    /// Whether no two entries share an id.
    pub closed spec fn wf(&self) -> bool {
        self.sessions.wf()
    }

    /// An empty table.
    pub fn new() -> (r: Self)
        ensures
            r.wf(),
            r@ == Map::<Seq<char>, SessionView<H>>::empty(),
    {
        let r = SessionTable { sessions: KeyedVec::new() };
        assert(r@ =~= Map::<Seq<char>, SessionView<H>>::empty());
        r
    }

    /// Puts `session` under `sid`, replacing a session of that id.
    pub fn insert(&mut self, sid: String, session: Session<H>)
        requires
            old(self).wf(),
        ensures
            final(self).wf(),
            final(self)@ == old(self)@.insert(sid@, session@),
    {
        let ghost v = session@;
        self.sessions.insert(sid, session);
        assert(self@ =~= old(self)@.insert(sid@, v));
    }

    /// Brings stored sessions back into memory, each under its own id and with
    /// no handlers; a later snapshot replaces an earlier one of the same id.
    pub fn load_snapshots(&mut self, snaps: Vec<SessionSnapshot>)
        requires
            old(self).wf(),
        ensures
            final(self).wf(),
            final(self)@ == load_snapshots_spec(old(self)@, snaps@),
    {
        let ghost all = snaps@;
        let ghost start = self@;
        let mut snaps = snaps;
        assert(all.subrange(0, 0) =~= Seq::<SessionSnapshot>::empty());
        assert(snaps@ =~= all.subrange(0, all.len() as int));
        while snaps.len() > 0
            invariant
                self.wf(),
                snaps@.len() <= all.len(),
                snaps@ == all.subrange(all.len() - snaps@.len(), all.len() as int),
                self@ == load_snapshots_spec(start, all.subrange(0, all.len() - snaps@.len())),
            decreases snaps.len(),
        {
            let ghost j = all.len() - snaps@.len();
            let s = snaps.remove(0);
            proof {
                assert(s == all[j]);
                let pre = all.subrange(0, j + 1);
                assert(pre.drop_last() =~= all.subrange(0, j));
                assert(pre.last() == s);
                assert(snaps@ =~= all.subrange(j + 1, all.len() as int));
            }
            let sid = s.metadata.session_id.clone();
            let ghost gs = s;
            let session = Session::from_snapshot(s);
            proof {
                assert(session.handlers@ =~= Seq::<H>::empty());
                assert(session@ == snapshot_session::<H>(gs));
            }
            self.insert(sid, session);
        }
        assert(all.subrange(0, all.len() as int) =~= all);
    }

    /// Adds the handler `h` to session `sid`.
    pub fn register_handler(&mut self, sid: &str, h: H) -> (r: Result<(), SessionError>)
        requires
            old(self).wf(),
        ensures
            final(self).wf(),
            old(self)@.contains_key(sid@) ==> r is Ok && final(self)@ == old(self)@.insert(
                sid@,
                with_handler(old(self)@[sid@], h),
            ),
            !old(self)@.contains_key(sid@) ==> (r matches Err(SessionError::NotFound(id)) && id@
                == sid@) && final(self)@ == old(self)@,
    {
        match self.sessions.remove(sid) {
            Some(s) => {
                let mut s = s;
                s.handlers.push(h);
                let ghost v = s@;
                self.sessions.insert(owned(sid), s);
                assert(self@ =~= old(self)@.insert(sid@, v));
                Ok(())
            },
            None => {
                assert(self@ =~= old(self)@);
                Err(SessionError::NotFound(owned(sid)))
            },
        }
    }

    /// The ids of the sessions, once each.
    fn keys(&self) -> (r: Vec<String>)
        requires
            self.wf(),
        ensures
            forall|i: int, j: int|
                0 <= i < r@.len() && 0 <= j < r@.len() && i != j ==> (#[trigger] r@[i])@ != (
                #[trigger] r@[j])@,
            forall|i: int| 0 <= i < r@.len() ==> self@.contains_key((#[trigger] r@[i])@),
            forall|k: Seq<char>|
                #[trigger] self@.contains_key(k) ==> exists|i: int| 0 <= i < r@.len() && r@[i]@ == k,
    {
        let entries = self.sessions.entries();
        let mut r: Vec<String> = Vec::new();
        let mut i: usize = 0;
        while i < entries.len()
            invariant
                i <= entries@.len(),
                r@.len() == i,
                forall|j: int| 0 <= j < i ==> (#[trigger] r@[j])@ == entries@[j].0@,
            decreases entries.len() - i,
        {
            r.push(entries[i].0.clone());
            i = i + 1;
        }
        proof {
            assert forall|k: Seq<char>| #[trigger] self@.contains_key(k) implies exists|i: int|
                0 <= i < r@.len() && r@[i]@ == k by {
                assert(self.sessions@.contains_key(k));
                assert(has_key(entries@, k));
                let j = choose|j: int| 0 <= j < entries@.len() && (#[trigger] entries@[j]).0@ == k;
                assert(r@[j]@ == k);
            }
            assert forall|i: int| 0 <= i < r@.len() implies self@.contains_key((#[trigger] r@[i])@) by {
                assert(self.sessions@.contains_key(entries@[i].0@));
            }
        }
        r
    }

    /// Adds a copy of the handler `h` to every session.
    pub fn register_handler_all(&mut self, h: &H)
        where
            H: Clone,
        requires
            old(self).wf(),
        ensures
            final(self).wf(),
            final(self)@.dom() == old(self)@.dom(),
            forall|k: Seq<char>| #[trigger]
                old(self)@.contains_key(k) ==> exists|c: H|
                    cloned::<H>(*h, c) && final(self)@[k] == with_handler(old(self)@[k], c),
    {
        let keys = self.keys();
        let ghost start = self@;
        let mut i: usize = 0;
        while i < keys.len()
            invariant
                self.wf(),
                i <= keys@.len(),
                self@.dom() == start.dom(),
                forall|a: int, b: int|
                    0 <= a < keys@.len() && 0 <= b < keys@.len() && a != b ==> (#[trigger] keys@[a])@
                        != (#[trigger] keys@[b])@,
                forall|a: int| 0 <= a < keys@.len() ==> start.contains_key((#[trigger] keys@[a])@),
                forall|k: Seq<char>|
                    #[trigger] start.contains_key(k) ==> exists|a: int|
                        0 <= a < keys@.len() && keys@[a]@ == k,
                forall|a: int|
                    i <= a < keys@.len() ==> self@[(#[trigger] keys@[a])@] == start[keys@[a]@],
                forall|a: int|
                    0 <= a < i ==> exists|c: H|
                        cloned::<H>(*h, c) && self@[(#[trigger] keys@[a])@] == with_handler(
                            start[keys@[a]@],
                            c,
                        ),
            decreases keys.len() - i,
        {
            let k = &keys[i];
            let ghost before = self@;
            let c = h.clone();
            let r = self.register_handler(k.as_str(), c);
            proof {
                assert(before.contains_key(keys@[i as int]@));
                assert(self@ == before.insert(keys@[i as int]@, with_handler(before[keys@[i as int]@], c)));
                assert(self@.dom() =~= start.dom());
                assert forall|a: int| i < a < keys@.len() implies self@[(#[trigger] keys@[a])@]
                    == start[keys@[a]@] by {
                    assert(keys@[a]@ != keys@[i as int]@);
                }
                assert forall|a: int| 0 <= a < i + 1 implies exists|c2: H|
                    cloned::<H>(*h, c2) && self@[(#[trigger] keys@[a])@] == with_handler(
                        start[keys@[a]@],
                        c2,
                    ) by {
                    if a == i {
                        assert(cloned::<H>(*h, c) && self@[keys@[a]@] == with_handler(
                            start[keys@[a]@],
                            c,
                        ));
                    } else {
                        assert(keys@[a]@ != keys@[i as int]@);
                        assert(self@[keys@[a]@] == before[keys@[a]@]);
                    }
                }
            }
            i = i + 1;
        }
        proof {
            assert forall|k: Seq<char>| #[trigger] start.contains_key(k) implies exists|c: H|
                cloned::<H>(*h, c) && self@[k] == with_handler(start[k], c) by {
                let a = choose|a: int| 0 <= a < keys@.len() && keys@[a]@ == k;
                assert(exists|c: H|
                    cloned::<H>(*h, c) && self@[(#[trigger] keys@[a])@] == with_handler(
                        start[keys@[a]@],
                        c,
                    ));
            }
        }
    }

    /// Adds `msg` with the id `id` to session `sid`, and returns the messages of
    /// the session and copies of its handlers.
    pub fn record_message(&mut self, sid: &str, msg: Message, id: i64) -> (r: Result<
        (Vec<Message>, Vec<H>),
        SessionError,
    >)
        where
            H: Clone,
        requires
            old(self).wf(),
        ensures
            final(self).wf(),
            old(self)@.contains_key(sid@) ==> r is Ok && final(self)@ == old(self)@.insert(
                sid@,
                with_message(old(self)@[sid@], Message { id: id, ..msg }),
            ),
            r matches Ok((msgs, hs)) ==> msgs@ == final(self)@[sid@].messages && hs@.len()
                == final(self)@[sid@].handlers.len() && forall|i: int|
                0 <= i < hs@.len() ==> cloned::<H>(final(self)@[sid@].handlers[i], #[trigger] hs@[i]),
            !old(self)@.contains_key(sid@) ==> (r matches Err(SessionError::NotFound(e)) && e@
                == sid@) && final(self)@ == old(self)@,
    {
        match self.sessions.remove(sid) {
            Some(s) => {
                let mut s = s;
                let m = Message { id, ..msg };
                s.messages.push(m);
                let msgs = clone_messages(&s.messages);
                let hs = s.handlers.clone();
                let ghost v = s@;
                self.sessions.insert(owned(sid), s);
                assert(self@ =~= old(self)@.insert(sid@, v));
                Ok((msgs, hs))
            },
            None => {
                assert(self@ =~= old(self)@);
                Err(SessionError::NotFound(owned(sid)))
            },
        }
    }

    /// Sets the archive time of session `sid`.
    pub fn set_archive_at(&mut self, sid: &str, at: Option<i64>) -> (r: Result<(), SessionError>)
        requires
            old(self).wf(),
        ensures
            final(self).wf(),
            old(self)@.contains_key(sid@) ==> r is Ok && final(self)@ == old(self)@.insert(
                sid@,
                with_archive_at(old(self)@[sid@], at),
            ),
            !old(self)@.contains_key(sid@) ==> (r matches Err(SessionError::NotFound(e)) && e@
                == sid@) && final(self)@ == old(self)@,
    {
        match self.sessions.remove(sid) {
            Some(s) => {
                let mut s = s;
                s.metadata.archive_at = at;
                let ghost v = s@;
                self.sessions.insert(owned(sid), s);
                assert(self@ =~= old(self)@.insert(sid@, v));
                Ok(())
            },
            None => {
                assert(self@ =~= old(self)@);
                Err(SessionError::NotFound(owned(sid)))
            },
        }
    }

    /// The ids of the sessions due for archiving at time `now`, once each.
    pub fn expired_ids(&self, now: i64) -> (r: Vec<String>)
        requires
            self.wf(),
        ensures
            forall|i: int, j: int|
                0 <= i < r@.len() && 0 <= j < r@.len() && i != j ==> (#[trigger] r@[i])@ != (
                #[trigger] r@[j])@,
            forall|i: int|
                0 <= i < r@.len() ==> self@.contains_key((#[trigger] r@[i])@) && is_expired(
                    self@[r@[i]@],
                    now,
                ),
            forall|k: Seq<char>|
                #[trigger] self@.contains_key(k) && is_expired(self@[k], now) ==> exists|i: int|
                    0 <= i < r@.len() && r@[i]@ == k,
    {
        let entries = self.sessions.entries();
        let mut r: Vec<String> = Vec::new();
        let mut i: usize = 0;
        let ghost mut idx: Seq<int> = Seq::empty();
        while i < entries.len()
            invariant
                i <= entries@.len(),
                entries@ == self.sessions.entries_spec(),
                keys_distinct(entries@),
                forall|j: int|
                    0 <= j < entries@.len() ==> self.sessions@.contains_key(
                        (#[trigger] entries@[j]).0@,
                    ) && self.sessions@[entries@[j].0@] == entries@[j].1,
                idx.len() == r@.len(),
                forall|a: int| 0 <= a < idx.len() ==> 0 <= #[trigger] idx[a] < i,
                forall|a: int, b: int| 0 <= a < b < idx.len() ==> idx[a] < idx[b],
                forall|a: int| 0 <= a < idx.len() ==> (#[trigger] r@[a])@ == entries@[idx[a]].0@,
                forall|a: int|
                    0 <= a < idx.len() ==> is_expired(entries@[#[trigger] idx[a]].1@, now),
                forall|j: int|
                    0 <= j < i && is_expired((#[trigger] entries@[j]).1@, now) ==> exists|a: int|
                        0 <= a < idx.len() && idx[a] == j,
            decreases entries.len() - i,
        {
            let due = match entries[i].1.metadata.archive_at {
                Some(t) => t <= now,
                None => false,
            };
            let ghost old_idx = idx;
            if due {
                r.push(entries[i].0.clone());
                proof {
                    idx = idx.push(i as int);
                }
            }
            proof {
                assert(due == is_expired(entries@[i as int].1@, now));
                assert forall|j: int|
                    0 <= j < i + 1 && is_expired((#[trigger] entries@[j]).1@, now) implies exists|a: int|
                    0 <= a < idx.len() && idx[a] == j by {
                    if j < i {
                        let a = choose|a: int| 0 <= a < old_idx.len() && old_idx[a] == j;
                        assert(idx[a] == j);
                    } else {
                        assert(idx[idx.len() - 1] == j);
                    }
                }
            }
            i = i + 1;
        }
        proof {
            assert forall|a: int, b: int|
                0 <= a < r@.len() && 0 <= b < r@.len() && a != b implies (#[trigger] r@[a])@ != (
                #[trigger] r@[b])@ by {
                assert(idx[a] != idx[b]);
            }
            assert forall|a: int| 0 <= a < r@.len() implies self@.contains_key((#[trigger] r@[a])@)
                && is_expired(self@[r@[a]@], now) by {
                let j = idx[a];
                assert(self.sessions@.contains_key(entries@[j].0@));
            }
            assert forall|k: Seq<char>| #[trigger]
                self@.contains_key(k) && is_expired(self@[k], now) implies exists|a: int|
                0 <= a < r@.len() && r@[a]@ == k by {
                assert(self.sessions@.contains_key(k));
                let j = choose|j: int| 0 <= j < entries@.len() && (#[trigger] entries@[j]).0@ == k;
                assert(self.sessions@[k] == entries@[j].1);
                let a = choose|a: int| 0 <= a < idx.len() && idx[a] == j;
                assert(r@[a]@ == k);
            }
        }
        r
    }

    /// Removes session `sid`; whether it was there.
    pub fn remove(&mut self, sid: &str) -> (r: bool)
        requires
            old(self).wf(),
        ensures
            final(self).wf(),
            final(self)@ == old(self)@.remove(sid@),
            r == old(self)@.contains_key(sid@),
    {
        let r = self.sessions.remove(sid);
        assert(self@ =~= old(self)@.remove(sid@));
        r.is_some()
    }

    /// The metadata of every session, once each.
    pub fn list_metadata(&self) -> (r: Vec<Metadata>)
        requires
            self.wf(),
        ensures
            exists|ks: Seq<Seq<char>>|
                ks.len() == r@.len() && ks.no_duplicates() && (forall|k: Seq<char>| #[trigger]
                    self@.contains_key(k) <==> ks.contains(k)) && (forall|i: int|
                    0 <= i < r@.len() ==> r@[i] == self@[#[trigger] ks[i]].metadata),
    {
        let entries = self.sessions.entries();
        let mut r: Vec<Metadata> = Vec::new();
        let mut i: usize = 0;
        while i < entries.len()
            invariant
                i <= entries@.len(),
                r@.len() == i,
                forall|j: int| 0 <= j < i ==> (#[trigger] r@[j]) == entries@[j].1.metadata,
            decreases entries.len() - i,
        {
            r.push(entries[i].1.metadata.clone());
            i = i + 1;
        }
        proof {
            let ks = entries@.map_values(|e: (String, Session<H>)| e.0@);
            assert forall|a: int, b: int|
                0 <= a < ks.len() && 0 <= b < ks.len() && a != b implies ks[a] != ks[b] by {
                assert(ks[a] == entries@[a].0@ && ks[b] == entries@[b].0@);
            }
            assert forall|k: Seq<char>| #[trigger] self@.contains_key(k) <==> ks.contains(k) by {
                if self@.contains_key(k) {
                    assert(self.sessions@.contains_key(k));
                    assert(has_key(entries@, k));
                    let j = choose|j: int| 0 <= j < entries@.len() && (#[trigger] entries@[j]).0@
                        == k;
                    assert(ks[j] == k);
                }
                if ks.contains(k) {
                    let j = choose|j: int| 0 <= j < ks.len() && ks[j] == k;
                    assert(entries@[j].0@ == k);
                    assert(self.sessions@.contains_key(entries@[j].0@));
                }
            }
            assert forall|i: int| 0 <= i < r@.len() implies r@[i] == self@[#[trigger] ks[i]].metadata by {
                assert(ks[i] == entries@[i].0@);
                assert(self.sessions@[entries@[i].0@] == entries@[i].1);
            }
            assert(ks.no_duplicates());
            assert(ks.len() == r@.len() && ks.no_duplicates() && (forall|k: Seq<char>| #[trigger]
                self@.contains_key(k) <==> ks.contains(k)) && (forall|i: int|
                0 <= i < r@.len() ==> r@[i] == self@[#[trigger] ks[i]].metadata));
        }
        r
    }

    /// The archive time of session `sid`, or `None` when there is no such session.
    pub fn get_archive_at(&self, sid: &str) -> (r: Option<Option<i64>>)
        requires
            self.wf(),
        ensures
            r == archive_at_of(self@, sid@),
    {
        match self.sessions.get(sid) {
            Some(s) => Some(s.metadata.archive_at),
            None => None,
        }
    }
}

/// Setting the archive time of a session is what reading it back gives, and
/// leaves the archive time of every other session as it was.
pub proof fn set_then_get_archive_at<H>(
    m: Map<Seq<char>, SessionView<H>>,
    sid: Seq<char>,
    at: Option<i64>,
    other: Seq<char>,
)
    requires
        m.contains_key(sid),
    ensures
        archive_at_of(m.insert(sid, with_archive_at(m[sid], at)), sid) == Some(at),
        other != sid ==> archive_at_of(m.insert(sid, with_archive_at(m[sid], at)), other)
            == archive_at_of(m, other),
{
}

/// A newly added session reads back with the archive time of its metadata.
pub proof fn new_session_archive_at<H>(
    m: Map<Seq<char>, SessionView<H>>,
    sid: Seq<char>,
    meta: Metadata,
)
    ensures
        archive_at_of(m.insert(sid, fresh_session::<H>(meta)), sid) == Some(meta.archive_at),
{
}

/// The table after removing the sessions `ks`, in order.
pub open spec fn remove_all<H>(m: Map<Seq<char>, SessionView<H>>, ks: Seq<Seq<char>>) -> Map<
    Seq<char>,
    SessionView<H>,
>
    decreases ks.len(),
{
    if ks.len() == 0 {
        m
    } else {
        remove_all(m, ks.drop_last()).remove(ks.last())
    }
}

proof fn lemma_remove_all<H>(m: Map<Seq<char>, SessionView<H>>, ks: Seq<Seq<char>>)
    ensures
        forall|k: Seq<char>| #[trigger]
            remove_all(m, ks).contains_key(k) <==> m.contains_key(k) && !ks.contains(k),
        forall|k: Seq<char>| #[trigger]
            remove_all(m, ks).contains_key(k) ==> remove_all(m, ks)[k] == m[k],
    decreases ks.len(),
{
    if ks.len() == 0 {
        assert forall|k: Seq<char>| #[trigger]
            remove_all(m, ks).contains_key(k) <==> m.contains_key(k) && !ks.contains(k) by {
            if ks.contains(k) {
                let i = choose|i: int| 0 <= i < ks.len() && ks[i] == k;
            }
        }
    } else {
        let d = ks.drop_last();
        lemma_remove_all(m, d);
        let r0 = remove_all(m, d);
        assert(remove_all(m, ks) == r0.remove(ks.last()));
        assert forall|k: Seq<char>| #[trigger]
            remove_all(m, ks).contains_key(k) <==> m.contains_key(k) && !ks.contains(k) by {
            if ks.contains(k) {
                let i = choose|i: int| 0 <= i < ks.len() && ks[i] == k;
                if i < ks.len() - 1 {
                    assert(d[i] == k);
                    assert(d.contains(k));
                }
            }
            if d.contains(k) {
                let i = choose|i: int| 0 <= i < d.len() && d[i] == k;
                assert(ks[i] == k);
            }
            if k == ks.last() {
                assert(ks[ks.len() - 1] == k);
            }
            assert(r0.contains_key(k) <==> m.contains_key(k) && !d.contains(k));
        }
        assert forall|k: Seq<char>| #[trigger]
            remove_all(m, ks).contains_key(k) implies remove_all(m, ks)[k] == m[k] by {
            assert(r0.contains_key(k));
        }
    }
}

/// Archiving every session that is due at `now` (the ids that
/// [`SessionTable::expired_ids`] gives) leaves exactly the sessions that are
/// not due, unchanged.
pub proof fn archive_expired_keeps_the_rest<H>(
    m: Map<Seq<char>, SessionView<H>>,
    ks: Seq<Seq<char>>,
    now: i64,
)
    requires
        forall|i: int| 0 <= i < ks.len() ==> m.contains_key(#[trigger] ks[i]) && is_expired(
            m[ks[i]],
            now,
        ),
        forall|k: Seq<char>| #[trigger]
            m.contains_key(k) && is_expired(m[k], now) ==> ks.contains(k),
    ensures
        forall|k: Seq<char>| #[trigger]
            remove_all(m, ks).contains_key(k) <==> m.contains_key(k) && !is_expired(m[k], now),
        forall|k: Seq<char>| #[trigger]
            remove_all(m, ks).contains_key(k) ==> remove_all(m, ks)[k] == m[k],
{
    lemma_remove_all(m, ks);
    assert forall|k: Seq<char>| #[trigger]
        remove_all(m, ks).contains_key(k) <==> m.contains_key(k) && !is_expired(m[k], now) by {
        if m.contains_key(k) && ks.contains(k) {
            let i = choose|i: int| 0 <= i < ks.len() && ks[i] == k;
            assert(is_expired(m[ks[i]], now));
        }
    }
}

} // verus!
