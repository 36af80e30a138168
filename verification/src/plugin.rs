//! Plugins: their manifests, the tools they declare, and the table of loaded
//! plugins.
use vstd::prelude::*;

use crate::keyed::KeyedVec;
use crate::text::{owned, path_join, path_join_spec, push_str};

verus! {

/// The `plugin.json` manifest of a plugin.
#[derive(Debug)]
pub struct PluginManifest {
    pub name: String,
    pub version: String,
    pub description: String,
    pub entry: String,
    pub tools: Vec<String>,
}

/// A tool that a plugin declared when it ran.
#[derive(Debug)]
pub struct RegisteredToolMeta {
    pub name: String,
    pub description: String,
    pub parameters: String,
}

/// The script that runs a plugin's entry code: it first defines the `ctx`
/// object through which the code declares its tools.
pub open spec fn bootstrap_prefix() -> Seq<char> {
    "\nconst ctx = {\n    tool: {\n        register(opts) {\n            Deno.core.ops.op_register_tool(\n                opts.name,\n                opts.description,\n                JSON.stringify(opts.parameters || {})\n            );\n        }\n    }\n};\n"@
}

/// The script that runs `entry_code` (see [`bootstrap_prefix`]).
pub fn bootstrap_script(entry_code: &str) -> (r: String)
    ensures
        r@ == bootstrap_prefix() + entry_code@ + "\n"@,
{
    let mut s = owned(
        "\nconst ctx = {\n    tool: {\n        register(opts) {\n            Deno.core.ops.op_register_tool(\n                opts.name,\n                opts.description,\n                JSON.stringify(opts.parameters || {})\n            );\n        }\n    }\n};\n",
    );
    push_str(&mut s, entry_code);
    push_str(&mut s, "\n");
    s
}

/// The manifest file name.
pub open spec fn manifest_filename() -> Seq<char> {
    "plugin.json"@
}

/// Whether a file found under the plugins directory is a plugin manifest.
pub fn is_manifest(file_name: &str) -> (r: bool)
    ensures
        r == (file_name@ == manifest_filename()),
{
    owned(file_name) == owned("plugin.json")
}

/// The manifest of plugin `name` under `plugins_dir`.
pub fn manifest_path(plugins_dir: &str, name: &str) -> (r: String)
    ensures
        r@ == path_join_spec(path_join_spec(plugins_dir@, name@), manifest_filename()),
{
    let d = path_join(plugins_dir, name);
    path_join(d.as_str(), "plugin.json")
}

/// Why a plugin could not be reloaded.
#[derive(Debug)]
pub enum PluginError {
    /// No plugin of that name is loaded.
    NotFound(String),
}

impl PluginError {
    /// The error message: `plugin '`, the name, `' not found`.
    pub fn message(&self) -> (r: String)
        ensures
            match self {
                PluginError::NotFound(n) => r@ == "plugin '"@ + n@ + "' not found"@,
            },
    {
        match self {
            PluginError::NotFound(n) => {
                let mut r = owned("plugin '");
                push_str(&mut r, n.as_str());
                push_str(&mut r, "' not found");
                r
            },
        }
    }
}

/// The loaded plugins `I`, by name.
pub struct PluginTable<I> {
    instances: KeyedVec<I>,
}

impl<I> View for PluginTable<I> {
    type V = Map<Seq<char>, I>;

    closed spec fn view(&self) -> Map<Seq<char>, I> {
        self.instances@
    }
}

impl<I> PluginTable<I> {
    pub closed spec fn wf(&self) -> bool {
        self.instances.wf()
    }

    /// No plugins loaded.
    pub fn new() -> (r: Self)
        ensures
            r.wf(),
            r@ == Map::<Seq<char>, I>::empty(),
    {
        PluginTable { instances: KeyedVec::new() }
    }

    /// Records the loaded plugin `name`, replacing one of the same name.
    pub fn insert(&mut self, name: String, instance: I)
        requires
            old(self).wf(),
        ensures
            final(self).wf(),
            final(self)@ == old(self)@.insert(name@, instance),
    {
        self.instances.insert(name, instance);
    }

    /// Takes plugin `name` out to reload it; a plugin that is not loaded
    /// cannot be reloaded.
    pub fn take_for_reload(&mut self, name: &str) -> (r: Result<I, PluginError>)
        requires
            old(self).wf(),
        ensures
            final(self).wf(),
            final(self)@ == old(self)@.remove(name@),
            old(self)@.contains_key(name@) ==> r == Ok::<I, PluginError>(old(self)@[name@]),
            !old(self)@.contains_key(name@) ==> (r matches Err(PluginError::NotFound(n)) && n@
                == name@),
    {
        match self.instances.remove(name) {
            Some(i) => Ok(i),
            None => Err(PluginError::NotFound(owned(name))),
        }
    }

    /// The names of the loaded plugins, once each.
    pub fn list(&self) -> (r: Vec<String>)
        requires
            self.wf(),
        ensures
            forall|i: int, j: int|
                0 <= i < r@.len() && 0 <= j < r@.len() && i != j ==> (#[trigger] r@[i])@ != (
                #[trigger] r@[j])@,
            forall|i: int| 0 <= i < r@.len() ==> self@.contains_key((#[trigger] r@[i])@),
            forall|k: Seq<char>|
                #[trigger] self@.contains_key(k) ==> exists|i: int| 0 <= i < r@.len() && r@[i]@ == k,
    {
        let entries = self.instances.entries();
        let mut r: Vec<String> = Vec::new();
        let mut i: usize = 0;
        while i < entries.len()
            invariant
                i <= entries@.len(),
                r@.len() == i,
                forall|j: int| 0 <= j < i ==> (#[trigger] r@[j])@ == entries@[j].0@,
            decreases entries.len() - i,
        {
            r.push(entries[i].0.clone());
            i = i + 1;
        }
        proof {
            assert forall|k: Seq<char>| #[trigger] self@.contains_key(k) implies exists|i: int|
                0 <= i < r@.len() && r@[i]@ == k by {
                assert(crate::keyed::has_key(entries@, k));
                let j = choose|j: int| 0 <= j < entries@.len() && (#[trigger] entries@[j]).0@ == k;
                assert(r@[j]@ == k);
            }
        }
        r
    }
}

} // verus!
