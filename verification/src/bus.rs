//! Events carried by the in-process event bus.
use vstd::prelude::*;

use crate::clock::utc_now_timestamp;
use crate::llm::clone_opt;

verus! {

/// What an event is about.
#[derive(Debug, Clone, Copy, PartialEq, Eq, Structural)]
pub enum EventKind {
    /// A chat message.
    Message,
    /// A tool asks the user for permission.
    PermissionRequest,
}

/// An event on the bus.
#[derive(Debug)]
pub struct BusEvent {
    pub kind: EventKind,
    pub sender: String,
    pub content: String,
    pub timestamp: i64,
    pub context: String,
    pub request_id: Option<String>,
    pub parent_request_id: Option<String>,
    pub target: Option<String>,
}

impl Clone for BusEvent {
    fn clone(&self) -> (r: Self)
        ensures
            r == *self,
    {
        BusEvent {
            kind: self.kind,
            sender: self.sender.clone(),
            content: self.content.clone(),
            timestamp: self.timestamp,
            context: self.context.clone(),
            request_id: clone_opt(&self.request_id),
            parent_request_id: clone_opt(&self.parent_request_id),
            target: clone_opt(&self.target),
        }
    }
}

impl BusEvent {
    /// A chat message from `sender` to every subscriber, stamped with the clock,
    /// answering or asking under `request_id`.
    pub fn message(sender: String, content: String, request_id: Option<String>) -> (e: Self)
        ensures
            e.kind == EventKind::Message,
            e.sender == sender,
            e.content == content,
            e.context@.len() == 0,
            e.request_id == request_id,
            e.parent_request_id is None,
            e.target is None,
    {
        BusEvent {
            kind: EventKind::Message,
            sender,
            content,
            timestamp: utc_now_timestamp(),
            context: String::new(),
            request_id,
            parent_request_id: None,
            target: None,
        }
    }

    /// A chat message from `sender` for the persona `target` only.
    pub fn targeted_message(
        sender: String,
        content: String,
        request_id: Option<String>,
        target: String,
    ) -> (e: Self)
        ensures
            e.kind == EventKind::Message,
            e.sender == sender,
            e.content == content,
            e.context@.len() == 0,
            e.request_id == request_id,
            e.parent_request_id is None,
            e.target == Some(target),
    {
        BusEvent {
            kind: EventKind::Message,
            sender,
            content,
            timestamp: utc_now_timestamp(),
            context: String::new(),
            request_id,
            parent_request_id: None,
            target: Some(target),
        }
    }

    /// The question `prompt` from `sender` to the user, filed under
    /// `permission_id`, on behalf of the user request `parent_request_id`.
    pub fn permission_request(
        sender: String,
        prompt: String,
        permission_id: String,
        parent_request_id: Option<String>,
    ) -> (e: Self)
        ensures
            e.kind == EventKind::PermissionRequest,
            e.sender == sender,
            e.content == prompt,
            e.context@.len() == 0,
            e.request_id == Some(permission_id),
            e.parent_request_id == parent_request_id,
            e.target is None,
    {
        BusEvent {
            kind: EventKind::PermissionRequest,
            sender,
            content: prompt,
            timestamp: utc_now_timestamp(),
            context: String::new(),
            request_id: Some(permission_id),
            parent_request_id,
            target: None,
        }
    }
}

} // verus!
