//! Where persona files live, and the cache of their contents.
use vstd::prelude::*;

use crate::keyed::KeyedVec;
use crate::text::{path_join, path_join_spec};

verus! {

/// The persona workspaces under a base directory.
#[derive(Debug)]
pub struct FilePersonaStore {
    pub personas_dir: String,
}

impl FilePersonaStore {
    /// The store for the `personas` directory under `base_dir`.
    pub fn new(base_dir: &str) -> (r: Self)
        ensures
            r.personas_dir@ == path_join_spec(base_dir@, "personas"@),
    {
        FilePersonaStore { personas_dir: path_join(base_dir, "personas") }
    }

    /// The workspace directory of persona `name`.
    pub fn workspace(&self, name: &str) -> (r: String)
        ensures
            r@ == path_join_spec(self.personas_dir@, name@),
    {
        path_join(self.personas_dir.as_str(), name)
    }

    /// The file `filename` of persona `name`.
    pub fn persona_file(&self, name: &str, filename: &str) -> (r: String)
        ensures
            r@ == path_join_spec(path_join_spec(self.personas_dir@, name@), filename@),
    {
        let w = self.workspace(name);
        path_join(w.as_str(), filename)
    }
}

/// A modification time, as seconds and nanoseconds since the epoch.
pub type Mtime = (i64, u32);

/// File contents by path, each with the modification time it was read at.
pub struct FileCache {
    entries: KeyedVec<(String, Mtime)>,
}

impl View for FileCache {
    type V = Map<Seq<char>, (String, Mtime)>;

    closed spec fn view(&self) -> Map<Seq<char>, (String, Mtime)> {
        self.entries@
    }
}

impl FileCache {
    pub closed spec fn wf(&self) -> bool {
        self.entries.wf()
    }

    /// An empty cache.
    pub fn new() -> (r: Self)
        ensures
            r.wf(),
            r@ == Map::<Seq<char>, (String, Mtime)>::empty(),
    {
        FileCache { entries: KeyedVec::new() }
    }

    /// The cached contents of `path`, when they were read at modification time
    /// `mtime`.
    pub fn lookup(&self, path: &str, mtime: Mtime) -> (r: Option<String>)
        requires
            self.wf(),
        ensures
            match r {
                Some(c) => self@.contains_key(path@) && self@[path@].1 == mtime && c
                    == self@[path@].0,
                None => !self@.contains_key(path@) || self@[path@].1 != mtime,
            },
    {
        match self.entries.get(path) {
            Some(e) => {
                if e.1.0 == mtime.0 && e.1.1 == mtime.1 {
                    Some(e.0.clone())
                } else {
                    None
                }
            },
            None => None,
        }
    }

    /// Records the contents of `path` read at modification time `mtime`.
    pub fn store(&mut self, path: String, content: String, mtime: Mtime)
        requires
            old(self).wf(),
        ensures
            final(self).wf(),
            final(self)@ == old(self)@.insert(path@, (content, mtime)),
    {
        self.entries.insert(path, (content, mtime));
    }
}

/// A stored file reads back from the cache while its modification time stays
/// the same, and not once it changes.
pub proof fn store_then_lookup(
    m: Map<Seq<char>, (String, Mtime)>,
    path: Seq<char>,
    content: String,
    mtime: Mtime,
    later: Mtime,
)
    ensures
        m.insert(path, (content, mtime)).contains_key(path),
        m.insert(path, (content, mtime))[path].0 == content,
        (m.insert(path, (content, mtime))[path].1 == later) == (later == mtime),
{
}

} // verus!
