//! What the HTTP and WebSocket endpoints answer, apart from the transport:
//! request checks, replies with their status codes, and which bus events a
//! WebSocket connection forwards.
use vstd::prelude::*;

use crate::bus::{BusEvent, EventKind};
use crate::clock::utc_now_timestamp;
use crate::keyed::KeyedVec;
use crate::session::{Metadata, SessionError};
use crate::text::{chars_of, owned, path_join, path_join_spec, string_of, trim, trim_chars};

verus! {

// ───────────────────────── static files ─────────────────────────

/// The directories searched for the web UI, in order: `webui` under `start`,
/// then `webui/dist` and `../webui/dist`.
pub open spec fn static_dir_candidates_spec(start: Seq<char>) -> Seq<Seq<char>> {
    seq![
        path_join_spec(start, "webui"@),
        "webui/dist"@,
        "../webui/dist"@,
    ]
}

/// The directories searched for the web UI (see [`static_dir_candidates_spec`]).
pub fn static_dir_candidates(start: &str) -> (r: Vec<String>)
    ensures
        r@.len() == 3,
        r@.map_values(|s: String| s@) == static_dir_candidates_spec(start@),
{
    let r = vec![path_join(start, "webui"), owned("webui/dist"), owned("../webui/dist")];
    assert(r@.map_values(|s: String| s@) =~= static_dir_candidates_spec(start@));
    r
}

/// The first directory of [`static_dir_candidates`] that holds an
/// `index.html`, where `index_present[i]` tells whether candidate `i` does.
pub fn find_static_dir(start: &str, index_present: &Vec<bool>) -> (r: Option<String>)
    requires
        index_present@.len() == 3,
    ensures
        match r {
            Some(d) => exists|i: int|
                0 <= i < 3 && index_present@[i] && d@ == static_dir_candidates_spec(start@)[i]
                    && forall|j: int| 0 <= j < i ==> !index_present@[j],
            None => forall|i: int| 0 <= i < 3 ==> !index_present@[i],
        },
{
    let candidates = static_dir_candidates(start);
    let mut k: usize = 0;
    while k < 3
        invariant
            k <= 3,
            candidates@.len() == 3,
            index_present@.len() == 3,
            candidates@.map_values(|s: String| s@) == static_dir_candidates_spec(start@),
            forall|j: int| 0 <= j < k ==> !index_present@[j],
        decreases 3 - k,
    {
        if index_present[k] {
            let d = candidates[k].clone();
            assert(d@ == candidates@.map_values(|s: String| s@)[k as int]);
            return Some(d);
        }
        k = k + 1;
    }
    None
}

/// The directories searched for the built web UI, in order: the one the
/// environment names, if any, then `webui/dist`, `../webui/dist` and
/// `../../webui/dist`.
pub open spec fn webui_dist_candidates_spec(env_dir: Option<Seq<char>>) -> Seq<Seq<char>> {
    let fixed = seq!["webui/dist"@, "../webui/dist"@, "../../webui/dist"@];
    match env_dir {
        Some(d) => seq![d] + fixed,
        None => fixed,
    }
}

/// The directories searched for the built web UI (see
/// [`webui_dist_candidates_spec`]).
pub fn webui_dist_candidates(env_dir: Option<String>) -> (r: Vec<String>)
    ensures
        r@.map_values(|s: String| s@) == webui_dist_candidates_spec(crate::llm::opt_view(env_dir)),
{
    let mut r: Vec<String> = Vec::new();
    match env_dir {
        Some(d) => r.push(d),
        None => {},
    }
    r.push(owned("webui/dist"));
    r.push(owned("../webui/dist"));
    r.push(owned("../../webui/dist"));
    assert(r@.map_values(|s: String| s@) =~= webui_dist_candidates_spec(
        crate::llm::opt_view(env_dir),
    ));
    r
}

/// The first of `candidates` marked present, where `present[i]` tells whether
/// candidate `i` is.
pub fn first_present(candidates: &Vec<String>, present: &Vec<bool>) -> (r: Option<String>)
    requires
        present@.len() == candidates@.len(),
    ensures
        match r {
            Some(d) => exists|i: int|
                0 <= i < candidates@.len() && present@[i] && d@ == candidates@[i]@ && forall|j: int|
                    0 <= j < i ==> !present@[j],
            None => forall|i: int| 0 <= i < candidates@.len() ==> !present@[i],
        },
{
    let mut k: usize = 0;
    while k < candidates.len()
        invariant
            k <= candidates@.len(),
            present@.len() == candidates@.len(),
            forall|j: int| 0 <= j < k ==> !present@[j],
        decreases candidates.len() - k,
    {
        if present[k] {
            return Some(candidates[k].clone());
        }
        k = k + 1;
    }
    None
}

/// The message when no built web UI is found.
pub open spec fn webui_missing_text() -> Seq<char> {
    "could not locate webui/dist. Run `bun run build` in webui/ first."@
}

/// The built web UI directory: the first of [`webui_dist_candidates`] that
/// holds an `index.html`, where `index_present[i]` tells whether candidate `i`
/// does; the error text where none does.
pub fn locate_webui_dist(env_dir: Option<String>, index_present: &Vec<bool>) -> (r: Result<
    String,
    String,
>)
    requires
        index_present@.len() == webui_dist_candidates_spec(crate::llm::opt_view(env_dir)).len(),
    ensures
        match r {
            Ok(d) => exists|i: int|
                0 <= i < index_present@.len() && index_present@[i] && d@
                    == webui_dist_candidates_spec(crate::llm::opt_view(env_dir))[i] && forall|j: int|
                    0 <= j < i ==> !index_present@[j],
            Err(e) => e@ == webui_missing_text() && forall|i: int|
                0 <= i < index_present@.len() ==> !index_present@[i],
        },
{
    let ghost spec_c = webui_dist_candidates_spec(crate::llm::opt_view(env_dir));
    let candidates = webui_dist_candidates(env_dir);
    assert(candidates@.len() == spec_c.len()) by {
        assert(candidates@.map_values(|s: String| s@).len() == candidates@.len());
    }
    match first_present(&candidates, index_present) {
        Some(d) => {
            proof {
                let i = choose|i: int|
                    0 <= i < candidates@.len() && index_present@[i] && d@ == candidates@[i]@
                        && forall|j: int| 0 <= j < i ==> !index_present@[j];
                assert(candidates@.map_values(|s: String| s@)[i] == candidates@[i]@);
            }
            Ok(d)
        },
        None => Err(owned("could not locate webui/dist. Run `bun run build` in webui/ first.")),
    }
}

// ───────────────────────── REST replies ─────────────────────────

/// The body of a JSON reply.
#[derive(Debug)]
pub enum ReplyBody {
    /// `{"error": ...}`
    Error(String),
    /// `{"sid": ...}`
    Sid(String),
    /// `{"archive_at": ...}`
    ArchiveAt(Option<i64>),
    /// `{"status": ...}`
    Status(String),
    /// The list of session metadata.
    MetadataList(Vec<Metadata>),
    /// `{"response": ...}`
    Response(String),
}

/// A reply: status code and JSON body.
#[derive(Debug)]
pub struct Reply {
    pub status: u16,
    pub body: ReplyBody,
}

/// Whether `r` is the error reply with `status` and message `msg`.
pub open spec fn is_error_reply(r: Reply, status: u16, msg: Seq<char>) -> bool {
    r.status == status && (r.body matches ReplyBody::Error(e) && e@ == msg)
}

/// The creator of a new session: the text given, trimmed; the `400` reply
/// `creator is required` when nothing is left.
pub fn check_creator(creator: &str) -> (r: Result<String, Reply>)
    ensures
        trim(creator@).len() > 0 ==> (r matches Ok(c) && c@ == trim(creator@)),
        trim(creator@).len() == 0 ==> (r matches Err(reply) && is_error_reply(
            reply,
            400,
            "creator is required"@,
        )),
{
    let v = chars_of(creator);
    let t = trim_chars(&v);
    if t.len() == 0 {
        Err(Reply { status: 400, body: ReplyBody::Error(owned("creator is required")) })
    } else {
        Ok(string_of(&t))
    }
}

/// The reply to creating a session: `201` with the new id, or `500`.
pub fn create_session_reply(created: Result<String, ()>) -> (r: Reply)
    ensures
        created matches Ok(sid) ==> r.status == 201 && (r.body matches ReplyBody::Sid(s) && s@
            == sid@),
        created is Err ==> is_error_reply(r, 500, "Failed to create session"@),
{
    match created {
        Ok(sid) => Reply { status: 201, body: ReplyBody::Sid(sid) },
        Err(()) => Reply {
            status: 500,
            body: ReplyBody::Error(owned("Failed to create session")),
        },
    }
}

/// The reply with every session's metadata: `200`.
pub fn list_metadata_reply(metadata: Vec<Metadata>) -> (r: Reply)
    ensures
        r.status == 200,
        r.body matches ReplyBody::MetadataList(m) && m == metadata,
{
    Reply { status: 200, body: ReplyBody::MetadataList(metadata) }
}

/// The reply to reading a session's archive time: `200` with it, or `404`
/// `Session not found`.
pub fn get_archive_at_reply(found: Option<Option<i64>>) -> (r: Reply)
    ensures
        found matches Some(at) ==> r.status == 200 && r.body == ReplyBody::ArchiveAt(at),
        found is None ==> is_error_reply(r, 404, "Session not found"@),
{
    match found {
        Some(at) => Reply { status: 200, body: ReplyBody::ArchiveAt(at) },
        None => Reply { status: 404, body: ReplyBody::Error(owned("Session not found")) },
    }
}

/// The reply to setting a session's archive time: `200` `ok`, or `404`
/// `Session not found`.
pub fn set_archive_at_reply(outcome: Result<(), SessionError>) -> (r: Reply)
    ensures
        outcome is Ok ==> r.status == 200 && (r.body matches ReplyBody::Status(s) && s@ == "ok"@),
        outcome is Err ==> is_error_reply(r, 404, "Session not found"@),
{
    match outcome {
        Ok(()) => Reply { status: 200, body: ReplyBody::Status(owned("ok")) },
        Err(_) => Reply { status: 404, body: ReplyBody::Error(owned("Session not found")) },
    }
}

/// How waiting for a chat reply ended.
#[derive(Debug)]
pub enum ChatOutcome {
    /// A persona answered.
    Answered(String),
    /// The reply channel closed without an answer.
    Dropped,
    /// No answer came in time.
    TimedOut,
}

/// The reply to a chat request: `200` with the answer, `500` when the reply
/// channel closed, `504` on timeout.
pub fn chat_reply(outcome: ChatOutcome) -> (r: Reply)
    ensures
        outcome matches ChatOutcome::Answered(a) ==> r.status == 200 && (r.body matches ReplyBody::Response(
            s,
        ) && s@ == a@),
        outcome is Dropped ==> is_error_reply(r, 500, "internal error"@),
        outcome is TimedOut ==> is_error_reply(r, 504, "timeout"@),
{
    match outcome {
        ChatOutcome::Answered(a) => Reply { status: 200, body: ReplyBody::Response(a) },
        ChatOutcome::Dropped => Reply { status: 500, body: ReplyBody::Error(owned("internal error")) },
        ChatOutcome::TimedOut => Reply { status: 504, body: ReplyBody::Error(owned("timeout")) },
    }
}

/// The user's chat message as a bus event, at time `timestamp`, waiting for
/// the answer under `request_id`.
pub fn user_chat_event(content: String, request_id: String, timestamp: i64) -> (e: BusEvent)
    ensures
        e.kind == EventKind::Message,
        e.sender@ == "user"@,
        e.content == content,
        e.timestamp == timestamp,
        e.context@.len() == 0,
        e.request_id == Some(request_id),
        e.parent_request_id is None,
        e.target is None,
{
    BusEvent {
        kind: EventKind::Message,
        sender: owned("user"),
        content,
        timestamp,
        context: String::new(),
        request_id: Some(request_id),
        parent_request_id: None,
        target: None,
    }
}

/// The waiting reply channel that `event` answers: the one filed under its
/// request id, taken out of `pending`.
pub fn dispatch<T>(pending: &mut KeyedVec<T>, event: &BusEvent) -> (r: Option<T>)
    requires
        old(pending).wf(),
    ensures
        final(pending).wf(),
        match event.request_id {
            Some(rid) => final(pending)@ == old(pending)@.remove(rid@) && match r {
                Some(tx) => old(pending)@.contains_key(rid@) && tx == old(pending)@[rid@],
                None => !old(pending)@.contains_key(rid@),
            },
            None => r is None && final(pending)@ == old(pending)@,
        },
{
    match &event.request_id {
        Some(rid) => pending.remove(rid.as_str()),
        None => None,
    }
}

// ───────────────────────── WebSocket ─────────────────────────

/// A command from the browser.
#[derive(Debug)]
pub enum ClientCommand {
    /// Send `content` to `persona`; answers come back under `request_id`.
    Send { persona: String, content: String, request_id: String },
    /// The user's answer to a permission request.
    Permission { permission_id: String, approved: bool },
}

/// An event for the browser.
#[derive(Debug)]
pub enum ServerEvent {
    Message { content: String, request_id: String },
    PermissionNeeded { permission_id: String, prompt: String, request_id: String },
    Error { content: String },
}

/// What the connection does for a command.
#[derive(Debug)]
pub enum CommandAction {
    /// Put this event on the bus.
    Publish(BusEvent),
    /// Answer the permission request.
    ResolvePermission { permission_id: String, approved: bool },
}

/// The requests of one WebSocket connection still waiting for an answer.
pub struct WsConnection {
    active: KeyedVec<()>,
}

impl WsConnection {
    /// The waiting request ids.
    pub closed spec fn active(&self) -> Set<Seq<char>> {
        self.active@.dom()
    }

    pub closed spec fn wf(&self) -> bool {
        self.active.wf()
    }

    /// A connection with no waiting requests.
    pub fn new() -> (r: Self)
        ensures
            r.wf(),
            r.active() == Set::<Seq<char>>::empty(),
    {
        let r = WsConnection { active: KeyedVec::new() };
        assert(r.active() =~= Set::<Seq<char>>::empty());
        r
    }

    /// Takes a command from the browser: a message is addressed to its persona
    /// from `user`, stamped with the clock, and its request becomes waiting; a
    /// permission answer is passed on.
    pub fn handle_command(&mut self, cmd: ClientCommand) -> (r: CommandAction)
        requires
            old(self).wf(),
        ensures
            final(self).wf(),
            match cmd {
                ClientCommand::Send { persona, content, request_id } => final(self).active()
                    == old(self).active().insert(request_id@) && (r matches CommandAction::Publish(e)
                    && e.kind == EventKind::Message && e.sender@ == "user"@ && e.content == content
                    && e.request_id == Some(request_id) && e.parent_request_id is None && e.target
                    == Some(persona)),
                ClientCommand::Permission { permission_id, approved } => final(self).active()
                    == old(self).active() && r == CommandAction::ResolvePermission {
                    permission_id,
                    approved,
                },
            },
    {
        match cmd {
            ClientCommand::Send { persona, content, request_id } => {
                self.active.insert(request_id.clone(), ());
                assert(self.active() =~= old(self).active().insert(request_id@));
                let e = BusEvent {
                    kind: EventKind::Message,
                    sender: owned("user"),
                    content,
                    timestamp: utc_now_timestamp(),
                    context: String::new(),
                    request_id: Some(request_id),
                    parent_request_id: None,
                    target: Some(persona),
                };
                CommandAction::Publish(e)
            },
            ClientCommand::Permission { permission_id, approved } => {
                CommandAction::ResolvePermission { permission_id, approved }
            },
        }
    }

    /// Whether request `rid` is waiting here.
    fn is_active(&self, rid: &String) -> (r: bool)
        requires
            self.wf(),
        ensures
            r == self.active().contains(rid@),
    {
        self.active.get(rid.as_str()).is_some()
    }

    /// The event for the browser that a bus event makes, if it concerns this
    /// connection: an answer to a waiting request, which then stops waiting;
    /// or a permission request raised for a waiting request.
    pub fn forward_event(&mut self, event: BusEvent) -> (r: Option<ServerEvent>)
        requires
            old(self).wf(),
        ensures
            final(self).wf(),
            event.kind == EventKind::Message ==> match event.request_id {
                Some(rid) => if old(self).active().contains(rid@) {
                    final(self).active() == old(self).active().remove(rid@) && (r matches Some(
                        ServerEvent::Message { content, request_id },
                    ) && content == event.content && request_id == rid)
                } else {
                    r is None && final(self).active() == old(self).active()
                },
                None => r is None && final(self).active() == old(self).active(),
            },
            event.kind == EventKind::PermissionRequest ==> final(self).active() == old(
                self,
            ).active() && match event.parent_request_id {
                Some(parent) => if old(self).active().contains(parent@) {
                    r matches Some(ServerEvent::PermissionNeeded { permission_id, prompt, request_id })
                        && prompt == event.content && request_id == parent && permission_id@ == match event.request_id {
                        Some(id) => id@,
                        None => Seq::<char>::empty(),
                    }
                } else {
                    r is None
                },
                None => r is None,
            },
    {
        match event.kind {
            EventKind::Message => {
                match event.request_id {
                    Some(rid) => {
                        if self.is_active(&rid) {
                            let _ = self.active.remove(rid.as_str());
                            assert(self.active() =~= old(self).active().remove(rid@));
                            Some(ServerEvent::Message { content: event.content, request_id: rid })
                        } else {
                            None
                        }
                    },
                    None => None,
                }
            },
            EventKind::PermissionRequest => {
                match event.parent_request_id {
                    Some(parent) => {
                        if self.is_active(&parent) {
                            let permission_id = match event.request_id {
                                Some(id) => id,
                                None => String::new(),
                            };
                            Some(
                                ServerEvent::PermissionNeeded {
                                    permission_id,
                                    prompt: event.content,
                                    request_id: parent,
                                },
                            )
                        } else {
                            None
                        }
                    },
                    None => None,
                }
            },
        }
    }
}

/// Each answer reaches the connection that asked, once: a request sent on a
/// connection waits there, so its answer is forwarded; once forwarded it no
/// longer waits, so a second answer is not; and a request that does not wait
/// on a connection (one sent on another) is never forwarded there.
pub proof fn answer_forwarded_once(active: Set<Seq<char>>, rid: Seq<char>, other: Seq<char>)
    requires
        !active.contains(other),
        other != rid,
    ensures
        active.insert(rid).contains(rid),
        !active.insert(rid).remove(rid).contains(rid),
        !active.insert(rid).contains(other),
        !active.insert(rid).remove(rid).contains(other),
{
}

} // verus!
