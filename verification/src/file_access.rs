//! The steps of a file tool run: resolve the path, ask the user where it lies
//! outside the persona's workspace, then touch the file or fail.
//!
//! The file system and the user are outside; a [`FileAccess`] takes what they
//! report and says what to do next.
use vstd::prelude::*;

use crate::path::components;
use crate::text::owned;
use crate::tool::{
    clean_path, inside_workspace, outside_workspace, permission_prompt, rebuild_path, ToolError,
};

verus! {

/// Where a file access stands.
#[derive(Debug)]
pub enum AccessStage {
    /// Waiting for the canonical form of the path; `first` on the first try.
    Resolving { first: bool },
    /// Waiting for the user's answer; on a yes, touch `then`, or resolve the
    /// path again where there is nothing to touch yet.
    Asking { then: Option<String> },
    /// The run is over.
    Done,
}

/// What to do next.
#[derive(Debug)]
pub enum AccessStep {
    /// Resolve the path to its canonical form and report it.
    Resolve,
    /// Put this question to the user and report the answer.
    Ask(String),
    /// Read or write the file at this path; the run is over.
    Access(String),
    /// The path could not be resolved; the run fails with that error.
    Unresolved,
    /// The run fails with this error.
    Fail(ToolError),
}

/// One run of `file_read` or `file_write` on the path `resolved`, for the
/// persona `persona` whose workspace has the canonical path `workspace`.
pub struct FileAccess {
    writing: bool,
    persona: String,
    resolved: String,
    workspace: String,
    stage: AccessStage,
}

/// The question put to the user (see [`permission_prompt`]).
pub open spec fn prompt_text(persona: Seq<char>, verb: Seq<char>, path: Seq<char>) -> Seq<char> {
    persona + " wants to "@ + verb + " outside its workspace: "@ + path
}

/// The verb of an access.
pub open spec fn verb_of(writing: bool) -> Seq<char> {
    if writing {
        "write"@
    } else {
        "read"@
    }
}

impl FileAccess {
    pub closed spec fn writing(&self) -> bool {
        self.writing
    }

    pub closed spec fn persona(&self) -> Seq<char> {
        self.persona@
    }

    pub closed spec fn resolved(&self) -> Seq<char> {
        self.resolved@
    }

    pub closed spec fn workspace(&self) -> Seq<char> {
        self.workspace@
    }

    pub closed spec fn stage(&self) -> AccessStage {
        self.stage
    }

    /// The question of this access.
    pub open spec fn question(&self) -> Seq<char> {
        prompt_text(self.persona(), verb_of(self.writing()), self.resolved())
    }

    /// Whether `self` differs from `other` in its stage alone.
    pub open spec fn same_request(&self, other: &FileAccess) -> bool {
        &&& self.writing() == other.writing()
        &&& self.persona() == other.persona()
        &&& self.resolved() == other.resolved()
        &&& self.workspace() == other.workspace()
    }

    /// A `file_read` (or, with `writing`, a `file_write`) of `resolved` for
    /// `persona`, whose workspace is `workspace`; it starts by resolving.
    pub fn new(writing: bool, persona: &str, resolved: &str, workspace: &str) -> (r: Self)
        ensures
            r.writing() == writing,
            r.persona() == persona@,
            r.resolved() == resolved@,
            r.workspace() == workspace@,
            r.stage() == (AccessStage::Resolving { first: true }),
    {
        FileAccess {
            writing,
            persona: owned(persona),
            resolved: owned(resolved),
            workspace: owned(workspace),
            stage: AccessStage::Resolving { first: true },
        }
    }

    /// The question to ask before touching `target`, where it lies outside the
    /// workspace; otherwise the access of `target`.
    fn check(&mut self, target: String) -> (step: AccessStep)
        ensures
            final(self).same_request(old(self)),
            !inside_workspace(target@, old(self).workspace()) ==> (step matches AccessStep::Ask(q)
                && q@ == old(self).question() && final(self).stage() == (AccessStage::Asking {
                then: Some(target),
            })),
            inside_workspace(target@, old(self).workspace()) ==> (step == AccessStep::Access(
                target,
            ) && final(self).stage() is Done),
    {
        if outside_workspace(target.as_str(), self.workspace.as_str()) {
            let verb = if self.writing {
                "write"
            } else {
                "read"
            };
            proof {
                reveal_strlit("write");
                reveal_strlit("read");
            }
            let q = permission_prompt(self.persona.as_str(), verb, self.resolved.as_str());
            self.stage = AccessStage::Asking { then: Some(target) };
            AccessStep::Ask(q)
        } else {
            self.stage = AccessStage::Done;
            AccessStep::Access(target)
        }
    }

    /// Takes the canonical form of the path, or `None` where it could not be
    /// resolved.
    ///
    /// A write goes to the canonical path, or to the path rebuilt from its
    /// components where it does not exist yet, and asks first where that lies
    /// outside the workspace; a `..` component is followed, and a path that
    /// climbs out of the workspace through it counts as outside. A read of a resolved path asks first where the
    /// path lies outside; a read of a path that does not resolve asks on the
    /// first try where the path as given lies outside, then resolves again, and
    /// fails where it still does not resolve.
    pub fn on_resolved(&mut self, canonical: Option<String>) -> (step: AccessStep)
        requires
            old(self).stage() is Resolving,
        ensures
            final(self).same_request(old(self)),
            old(self).writing() ==> {
                let target = match canonical {
                    Some(c) => c@,
                    None => rebuild_path(components(old(self).resolved())),
                };
                &&& !inside_workspace(target, old(self).workspace()) ==> (step matches AccessStep::Ask(q)
                    && q@ == old(self).question() && (final(self).stage() matches AccessStage::Asking {
                    then: Some(t),
                } && t@ == target))
                &&& inside_workspace(target, old(self).workspace()) ==> (step matches AccessStep::Access(p)
                    && p@ == target && final(self).stage() is Done)
            },
            !old(self).writing() ==> match canonical {
                Some(c) => {
                    &&& !inside_workspace(c@, old(self).workspace()) ==> (step matches AccessStep::Ask(q)
                        && q@ == old(self).question() && final(self).stage() == (AccessStage::Asking {
                        then: Some(c),
                    }))
                    &&& inside_workspace(c@, old(self).workspace()) ==> (step == AccessStep::Access(c)
                        && final(self).stage() is Done)
                },
                None => if old(self).stage()->first {
                    &&& !inside_workspace(old(self).resolved(), old(self).workspace()) ==> (step matches AccessStep::Ask(
                        q,
                    ) && q@ == old(self).question() && final(self).stage() == (AccessStage::Asking {
                        then: None,
                    }))
                    &&& inside_workspace(old(self).resolved(), old(self).workspace()) ==> (step
                        is Resolve && final(self).stage() == (AccessStage::Resolving { first: false }))
                } else {
                    step is Unresolved && final(self).stage() is Done
                },
            },
    {
        let first = match self.stage {
            AccessStage::Resolving { first } => first,
            _ => true,
        };
        if self.writing {
            let target = match canonical {
                Some(c) => c,
                None => clean_path(self.resolved.as_str()),
            };
            self.check(target)
        } else {
            match canonical {
                Some(c) => self.check(c),
                None => {
                    if !first {
                        self.stage = AccessStage::Done;
                        AccessStep::Unresolved
                    } else if outside_workspace(self.resolved.as_str(), self.workspace.as_str()) {
                        proof {
                            reveal_strlit("read");
                        }
                        let q = permission_prompt(self.persona.as_str(), "read", self.resolved.as_str());
                        self.stage = AccessStage::Asking { then: None };
                        AccessStep::Ask(q)
                    } else {
                        self.stage = AccessStage::Resolving { first: false };
                        AccessStep::Resolve
                    }
                },
            }
        }
    }

    /// Takes the user's answer: a yes goes on (to the file, or to resolving the
    /// path again); a no fails with [`ToolError::PermissionDenied`].
    pub fn on_answer(&mut self, approved: bool) -> (step: AccessStep)
        requires
            old(self).stage() is Asking,
        ensures
            final(self).same_request(old(self)),
            !approved ==> step == AccessStep::Fail(ToolError::PermissionDenied) && final(self).stage() is Done,
            approved ==> match old(self).stage()->then {
                Some(p) => step == AccessStep::Access(p) && final(self).stage() is Done,
                None => step is Resolve && final(self).stage() == (AccessStage::Resolving {
                    first: false,
                }),
            },
    {
        if !approved {
            self.stage = AccessStage::Done;
            return AccessStep::Fail(ToolError::PermissionDenied);
        }
        let then = match &self.stage {
            AccessStage::Asking { then } => crate::llm::clone_opt(then),
            _ => None,
        };
        match then {
            Some(p) => {
                self.stage = AccessStage::Done;
                AccessStep::Access(p)
            },
            None => {
                self.stage = AccessStage::Resolving { first: false };
                AccessStep::Resolve
            },
        }
    }
}

} // verus!
