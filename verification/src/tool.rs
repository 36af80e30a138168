//! Tools the agent can call: their parameter schemas, the built-in tools, and
//! the registry that looks them up by name.
use vstd::prelude::*;

use crate::llm::{opt_view, ToolDef, ToolDefView};
use crate::path::{
    components, components_of, is_normal, lemma_absolute_components, lemma_no_parent_stays_below,
    stays_within, stays_within_spec,
    lemma_join_components, lemma_normal_parts_normal, lemma_segments_concat, lemma_segments_no_slash,
    normal_parts, parent_dir, path_starts_with, path_starts_with_spec, segments,
};
use crate::text::{decimal_u64_chars, digits_of, owned, push_chars, push_str};
use vstd::string::StringSliceAdditionalSpecFns;
use crate::text::{path_join, path_join_spec};

verus! {

/// What a tool run knows about its caller.
#[derive(Debug)]
pub struct ToolContext {
    pub persona_name: String,
}

/// One property of a tool's parameter object.
#[derive(Debug)]
pub struct PropertyDef {
    pub prop_type: String,
    pub description: String,
    pub enum_values: Vec<String>,
}

pub struct PropertyDefView {
    pub prop_type: Seq<char>,
    pub description: Seq<char>,
    pub enum_values: Seq<Seq<char>>,
}

impl View for PropertyDef {
    type V = PropertyDefView;

    open spec fn view(&self) -> PropertyDefView {
        PropertyDefView {
            prop_type: self.prop_type@,
            description: self.description@,
            enum_values: self.enum_values@.map_values(|s: String| s@),
        }
    }
}

/// The JSON-schema object that describes a tool's parameters.
#[derive(Debug)]
pub struct ToolParams {
    pub schema_type: String,
    pub properties: Vec<(String, PropertyDef)>,
    pub required: Vec<String>,
}

pub struct ToolParamsView {
    pub schema_type: Seq<char>,
    pub properties: Seq<(Seq<char>, PropertyDefView)>,
    pub required: Seq<Seq<char>>,
}

impl View for ToolParams {
    type V = ToolParamsView;

    open spec fn view(&self) -> ToolParamsView {
        ToolParamsView {
            schema_type: self.schema_type@,
            properties: self.properties@.map_values(|p: (String, PropertyDef)| (p.0@, p.1@)),
            required: self.required@.map_values(|s: String| s@),
        }
    }
}

pub open spec fn object_type() -> Seq<char> {
    seq!['o', 'b', 'j', 'e', 'c', 't']
}

pub open spec fn string_type() -> Seq<char> {
    seq!['s', 't', 'r', 'i', 'n', 'g']
}

/// Whether no two of the properties `props` share a name, as in a map by name.
pub open spec fn property_names_distinct(props: Seq<(Seq<char>, PropertyDefView)>) -> bool {
    forall|i: int, j: int|
        0 <= i < props.len() && 0 <= j < props.len() && i != j ==> (#[trigger] props[i]).0 != (
        #[trigger] props[j]).0
}

impl ToolParams {
    /// An `object` schema with the given properties, no two of the same name,
    /// and the given required names.
    pub fn object(properties: Vec<(String, PropertyDef)>, required: Vec<String>) -> (r: Self)
        requires
            property_names_distinct(properties@.map_values(|p: (String, PropertyDef)| (p.0@, p.1@))),
        ensures
            property_names_distinct(r@.properties),
            r.schema_type@ == object_type(),
            r.properties == properties,
            r.required == required,
    {
        let t = owned("object");
        proof {
            reveal_strlit("object");
            assert(t@ =~= object_type());
        }
        ToolParams { schema_type: t, properties, required }
    }
}

/// A string property with the given description.
fn string_property(name: &str, description: &str) -> (r: (String, PropertyDef))
    ensures
        r.0@ == name@,
        r.1.prop_type@ == string_type(),
        r.1.description@ == description@,
        r.1.enum_values@.len() == 0,
        r.1@ == (PropertyDefView {
            prop_type: string_type(),
            description: description@,
            enum_values: Seq::empty(),
        }),
{
    let t = owned("string");
    proof {
        reveal_strlit("string");
        assert(t@ =~= string_type());
    }
    let p = PropertyDef { prop_type: t, description: owned(description), enum_values: Vec::new() };
    assert(p.enum_values@.map_values(|s: String| s@) =~= Seq::<Seq<char>>::empty());
    (owned(name), p)
}

/// What the agent needs to know of a tool to offer it to the model.
pub trait Tool {
    spec fn spec_name(&self) -> Seq<char>;

    spec fn spec_description(&self) -> Seq<char>;

    spec fn spec_parameters(&self) -> ToolParamsView;

    fn name(&self) -> (r: String)
        ensures
            r@ == self.spec_name(),
    ;

    fn description(&self) -> (r: String)
        ensures
            r@ == self.spec_description(),
    ;

    fn parameters(&self) -> (r: ToolParams)
        ensures
            r@ == self.spec_parameters(),
            property_names_distinct(r@.properties),
    ;
}

// ───────────────────────── built-in tools ─────────────────────────

/// Reads a file within the persona workspace.
#[derive(Debug)]
pub struct FileReadTool {
    pub personas_dir: String,
}

/// Writes a file within the persona workspace.
#[derive(Debug)]
pub struct FileWriteTool {
    pub personas_dir: String,
}

/// Accepts a message to be delivered later.
#[derive(Debug)]
pub struct ScheduleTool;

/// Reports the version of Nota.
#[derive(Debug)]
pub struct GetVersionTool;

impl FileReadTool {
    pub fn new(personas_dir: String) -> (r: Self)
        ensures
            r.personas_dir == personas_dir,
    {
        FileReadTool { personas_dir }
    }

    /// The workspace directory of the persona `name`.
    pub fn workspace(&self, name: &str) -> (r: String)
        ensures
            r@ == path_join_spec(self.personas_dir@, name@),
    {
        path_join(self.personas_dir.as_str(), name)
    }
}

impl FileWriteTool {
    pub fn new(personas_dir: String) -> (r: Self)
        ensures
            r.personas_dir == personas_dir,
    {
        FileWriteTool { personas_dir }
    }

    /// The workspace directory of the persona `name`.
    pub fn workspace(&self, name: &str) -> (r: String)
        ensures
            r@ == path_join_spec(self.personas_dir@, name@),
    {
        path_join(self.personas_dir.as_str(), name)
    }
}

/// The built-in tools.
#[derive(Debug)]
pub enum BuiltinTool {
    FileRead(FileReadTool),
    FileWrite(FileWriteTool),
    Schedule(ScheduleTool),
    GetVersion(GetVersionTool),
}

pub open spec fn file_read_name() -> Seq<char> {
    seq!['f', 'i', 'l', 'e', '_', 'r', 'e', 'a', 'd']
}

pub open spec fn file_write_name() -> Seq<char> {
    seq!['f', 'i', 'l', 'e', '_', 'w', 'r', 'i', 't', 'e']
}

pub open spec fn schedule_name() -> Seq<char> {
    seq!['s', 'c', 'h', 'e', 'd', 'u', 'l', 'e']
}

pub open spec fn get_version_name() -> Seq<char> {
    seq!['g', 'e', 't', '_', 'v', 'e', 'r', 's', 'i', 'o', 'n']
}

/// The description text of each built-in tool.
pub closed spec fn builtin_description(t: BuiltinTool) -> Seq<char> {
    match t {
        BuiltinTool::FileRead(_) => "Read a file within the persona workspace"@,
        BuiltinTool::FileWrite(
            _,
        ) => "Write content to a file within the persona workspace. Creates parent directories if needed."@,
        BuiltinTool::Schedule(
            _,
        ) => "Schedule a message to be sent in this session at a future time"@,
        BuiltinTool::GetVersion(_) => "Get the current Nota version"@,
    }
}

/// A property of a parameter schema: a string with the given description.
pub open spec fn string_prop(name: Seq<char>, description: Seq<char>) -> (
    Seq<char>,
    PropertyDefView,
) {
    (name, PropertyDefView { prop_type: string_type(), description, enum_values: Seq::empty() })
}

/// The parameter schema of each built-in tool.
pub closed spec fn builtin_parameters(t: BuiltinTool) -> ToolParamsView {
    let path = seq!['p', 'a', 't', 'h'];
    let content = seq!['c', 'o', 'n', 't', 'e', 'n', 't'];
    let message = seq!['m', 'e', 's', 's', 'a', 'g', 'e'];
    let trigger_at = seq!['t', 'r', 'i', 'g', 'g', 'e', 'r', '_', 'a', 't'];
    match t {
        BuiltinTool::FileRead(_) => ToolParamsView {
            schema_type: object_type(),
            properties: seq![string_prop(path, "Relative path within the persona workspace"@)],
            required: seq![path],
        },
        BuiltinTool::FileWrite(_) => ToolParamsView {
            schema_type: object_type(),
            properties: seq![
                string_prop(path, "Relative path within the persona workspace"@),
                string_prop(content, "Content to write"@),
            ],
            required: seq![path, content],
        },
        BuiltinTool::Schedule(_) => ToolParamsView {
            schema_type: object_type(),
            properties: seq![
                string_prop(message, "Message content to deliver"@),
                string_prop(trigger_at, "ISO 8601 datetime when the message should be delivered"@),
            ],
            required: seq![message, trigger_at],
        },
        BuiltinTool::GetVersion(_) => ToolParamsView {
            schema_type: object_type(),
            properties: Seq::empty(),
            required: Seq::empty(),
        },
    }
}

impl Tool for BuiltinTool {
    open spec fn spec_name(&self) -> Seq<char> {
        match self {
            BuiltinTool::FileRead(_) => file_read_name(),
            BuiltinTool::FileWrite(_) => file_write_name(),
            BuiltinTool::Schedule(_) => schedule_name(),
            BuiltinTool::GetVersion(_) => get_version_name(),
        }
    }

    open spec fn spec_description(&self) -> Seq<char> {
        builtin_description(*self)
    }

    open spec fn spec_parameters(&self) -> ToolParamsView {
        builtin_parameters(*self)
    }

    fn name(&self) -> (r: String) {
        match self {
            BuiltinTool::FileRead(_) => {
                let r = owned("file_read");
                proof {
                    reveal_strlit("file_read");
                    assert(r@ =~= file_read_name());
                }
                r
            },
            BuiltinTool::FileWrite(_) => {
                let r = owned("file_write");
                proof {
                    reveal_strlit("file_write");
                    assert(r@ =~= file_write_name());
                }
                r
            },
            BuiltinTool::Schedule(_) => {
                let r = owned("schedule");
                proof {
                    reveal_strlit("schedule");
                    assert(r@ =~= schedule_name());
                }
                r
            },
            BuiltinTool::GetVersion(_) => {
                let r = owned("get_version");
                proof {
                    reveal_strlit("get_version");
                    assert(r@ =~= get_version_name());
                }
                r
            },
        }
    }

    fn description(&self) -> (r: String) {
        proof {
            reveal(builtin_description);
        }
        match self {
            BuiltinTool::FileRead(_) => owned("Read a file within the persona workspace"),
            BuiltinTool::FileWrite(_) => owned(
                "Write content to a file within the persona workspace. Creates parent directories if needed.",
            ),
            BuiltinTool::Schedule(_) => owned(
                "Schedule a message to be sent in this session at a future time",
            ),
            BuiltinTool::GetVersion(_) => owned("Get the current Nota version"),
        }
    }

    fn parameters(&self) -> (r: ToolParams) {
        proof {
            reveal(builtin_parameters);
        }
        let path = "path";
        let content = "content";
        let message = "message";
        let trigger_at = "trigger_at";
        proof {
            reveal_strlit("path");
            reveal_strlit("content");
            reveal_strlit("message");
            reveal_strlit("trigger_at");
        }
        match self {
            BuiltinTool::FileRead(_) => {
                let p0 = string_property(path, "Relative path within the persona workspace");
                let props = vec![p0];
                let req = vec![owned(path)];
                assert(props@.map_values(|p: (String, PropertyDef)| (p.0@, p.1@)).len() == 1);
                let r = ToolParams::object(props, req);
                assert(r@.properties.len() == 1);
                assert(r@.properties[0] == (p0.0@, p0.1@));
                assert(p0.0@ =~= seq!['p', 'a', 't', 'h']);
                assert(r@.properties =~= builtin_parameters(*self).properties);
                assert(r@.required =~= builtin_parameters(*self).required);
                r
            },
            BuiltinTool::FileWrite(_) => {
                let p0 = string_property(path, "Relative path within the persona workspace");
                let p1 = string_property(content, "Content to write");
                let props = vec![p0, p1];
                let req = vec![owned(path), owned(content)];
                assert(p0.0@ =~= seq!['p', 'a', 't', 'h']);
                assert(p1.0@ =~= seq!['c', 'o', 'n', 't', 'e', 'n', 't']);
                assert(props@.map_values(|p: (String, PropertyDef)| (p.0@, p.1@))[0].0 != props@.map_values(
                    |p: (String, PropertyDef)| (p.0@, p.1@),
                )[1].0);
                let r = ToolParams::object(props, req);
                assert(r@.properties.len() == 2);
                assert(r@.properties[0] == (p0.0@, p0.1@));
                assert(r@.properties[1] == (p1.0@, p1.1@));
                assert(p0.0@ =~= seq!['p', 'a', 't', 'h']);
                assert(p1.0@ =~= seq!['c', 'o', 'n', 't', 'e', 'n', 't']);
                assert(r@.properties =~= builtin_parameters(*self).properties);
                assert(r@.required =~= builtin_parameters(*self).required);
                r
            },
            BuiltinTool::Schedule(_) => {
                let p0 = string_property(message, "Message content to deliver");
                let p1 = string_property(
                    trigger_at,
                    "ISO 8601 datetime when the message should be delivered",
                );
                let props = vec![p0, p1];
                let req = vec![owned(message), owned(trigger_at)];
                assert(p0.0@ =~= seq!['m', 'e', 's', 's', 'a', 'g', 'e']);
                assert(p1.0@ =~= seq!['t', 'r', 'i', 'g', 'g', 'e', 'r', '_', 'a', 't']);
                assert(props@.map_values(|p: (String, PropertyDef)| (p.0@, p.1@))[0].0 != props@.map_values(
                    |p: (String, PropertyDef)| (p.0@, p.1@),
                )[1].0);
                let r = ToolParams::object(props, req);
                assert(r@.properties.len() == 2);
                assert(r@.properties[0] == (p0.0@, p0.1@));
                assert(r@.properties[1] == (p1.0@, p1.1@));
                assert(p0.0@ =~= seq!['m', 'e', 's', 's', 'a', 'g', 'e']);
                assert(p1.0@ =~= seq!['t', 'r', 'i', 'g', 'g', 'e', 'r', '_', 'a', 't']);
                assert(r@.properties =~= builtin_parameters(*self).properties);
                assert(r@.required =~= builtin_parameters(*self).required);
                r
            },
            BuiltinTool::GetVersion(_) => {
                let none: Vec<(String, PropertyDef)> = Vec::new();
                assert(none@.map_values(|p: (String, PropertyDef)| (p.0@, p.1@)).len() == 0);
                let r = ToolParams::object(none, Vec::new());
                assert(r@.properties =~= Seq::<(Seq<char>, PropertyDefView)>::empty());
                assert(r@.required =~= Seq::<Seq<char>>::empty());
                assert(r@ =~= builtin_parameters(*self));
                r
            },
        }
    }
}

// ───────────────────────── the registry ─────────────────────────

/// Tools by name; registering a tool under a name already taken replaces it.
pub struct ToolRegistryImpl<T> {
    tools: Vec<T>,
}

/// Whether `s` holds a tool named `n`.
pub open spec fn holds_name<T: Tool>(s: Seq<T>, n: Seq<char>) -> bool {
    exists|i: int| 0 <= i < s.len() && (#[trigger] s[i]).spec_name() == n
}

/// Whether the tools of `s` have pairwise different names.
pub open spec fn names_distinct<T: Tool>(s: Seq<T>) -> bool {
    forall|i: int, j: int|
        0 <= i < s.len() && 0 <= j < s.len() && i != j ==> (#[trigger] s[i]).spec_name() != (
        #[trigger] s[j]).spec_name()
}

/// The tools of `s` by name.
pub open spec fn tools_by_name<T: Tool>(s: Seq<T>) -> Map<Seq<char>, T> {
    Map::new(
        |n: Seq<char>| holds_name(s, n),
        |n: Seq<char>| s[choose|i: int| 0 <= i < s.len() && (#[trigger] s[i]).spec_name() == n],
    )
}

proof fn lemma_tools_by_name_at<T: Tool>(s: Seq<T>, i: int)
    requires
        names_distinct(s),
        0 <= i < s.len(),
    ensures
        tools_by_name(s).contains_key(s[i].spec_name()),
        tools_by_name(s)[s[i].spec_name()] == s[i],
{
    let n = s[i].spec_name();
    assert(holds_name(s, n));
    let k = choose|k: int| 0 <= k < s.len() && (#[trigger] s[k]).spec_name() == n;
    assert(k == i);
}

impl<T: Tool> View for ToolRegistryImpl<T> {
    type V = Map<Seq<char>, T>;

    closed spec fn view(&self) -> Map<Seq<char>, T> {
        tools_by_name(self.tools@)
    }
}

impl<T: Tool> ToolRegistryImpl<T> {
    /// Whether no two registered tools share a name.
    pub closed spec fn wf(&self) -> bool {
        names_distinct(self.tools@)
    }

    /// An empty registry.
    pub fn new() -> (r: Self)
        ensures
            r.wf(),
            r@ == Map::<Seq<char>, T>::empty(),
    {
        let r = ToolRegistryImpl { tools: Vec::new() };
        assert(r@ =~= Map::<Seq<char>, T>::empty());
        r
    }

    /// The index of the tool named `name`, or the number of tools.
    fn position(&self, name: &String) -> (k: usize)
        ensures
            k <= self.tools@.len(),
            k < self.tools@.len() ==> self.tools@[k as int].spec_name() == name@,
            k == self.tools@.len() ==> !holds_name(self.tools@, name@),
    {
        let mut k: usize = 0;
        while k < self.tools.len()
            invariant
                k <= self.tools@.len(),
                forall|j: int| 0 <= j < k ==> (#[trigger] self.tools@[j]).spec_name() != name@,
            decreases self.tools.len() - k,
        {
            let n = self.tools[k].name();
            if n == *name {
                return k;
            }
            k = k + 1;
        }
        k
    }

    /// Registers `tool` under its name, replacing a tool of the same name.
    pub fn register(&mut self, tool: T)
        requires
            old(self).wf(),
        ensures
            final(self).wf(),
            final(self)@ == old(self)@.insert(tool.spec_name(), tool),
    {
        let name = tool.name();
        let k = self.position(&name);
        let ghost old_tools = self.tools@;
        let ghost n = tool.spec_name();
        if k < self.tools.len() {
            self.tools.set(k, tool);
            proof {
                let s = self.tools@;
                assert(s =~= old_tools.update(k as int, tool));
                assert(names_distinct(s)) by {
                    assert forall|i: int, j: int|
                        0 <= i < s.len() && 0 <= j < s.len() && i != j implies (#[trigger] s[i]).spec_name()
                        != (#[trigger] s[j]).spec_name() by {
                        if i == k {
                            assert(old_tools[k as int].spec_name() == n);
                        } else if j == k {
                            assert(old_tools[k as int].spec_name() == n);
                        } else {
                            assert(s[i] == old_tools[i] && s[j] == old_tools[j]);
                        }
                    }
                }
                assert forall|m: Seq<char>| #[trigger]
                    holds_name(s, m) <==> holds_name(old_tools, m) || m == n by {
                    if holds_name(s, m) {
                        let i = choose|i: int| 0 <= i < s.len() && (#[trigger] s[i]).spec_name() == m;
                        if i != k {
                            assert(old_tools[i] == s[i]);
                        }
                    }
                    if holds_name(old_tools, m) {
                        let i = choose|i: int|
                            0 <= i < old_tools.len() && (#[trigger] old_tools[i]).spec_name() == m;
                        if i == k {
                            assert(m == n);
                        } else {
                            assert(s[i] == old_tools[i]);
                        }
                    }
                    if m == n {
                        assert(s[k as int].spec_name() == m);
                    }
                }
                assert forall|m: Seq<char>| #[trigger]
                    tools_by_name(s).contains_key(m) implies tools_by_name(s)[m] == old_tools_by_name_insert(
                    old_tools,
                    n,
                    tool,
                )[m] by {
                    let i = choose|i: int| 0 <= i < s.len() && (#[trigger] s[i]).spec_name() == m;
                    lemma_tools_by_name_at(s, i);
                    if i != k {
                        assert(old_tools[i] == s[i]);
                        lemma_tools_by_name_at(old_tools, i);
                    }
                }
                assert(tools_by_name(s) =~= tools_by_name(old_tools).insert(n, tool));
            }
        } else {
            self.tools.push(tool);
            proof {
                let s = self.tools@;
                assert(s =~= old_tools.push(tool));
                assert(names_distinct(s)) by {
                    assert forall|i: int, j: int|
                        0 <= i < s.len() && 0 <= j < s.len() && i != j implies (#[trigger] s[i]).spec_name()
                        != (#[trigger] s[j]).spec_name() by {
                        if i == k {
                            assert(s[j] == old_tools[j]);
                        } else if j == k {
                            assert(s[i] == old_tools[i]);
                        } else {
                            assert(s[i] == old_tools[i] && s[j] == old_tools[j]);
                        }
                    }
                }
                assert forall|m: Seq<char>| #[trigger]
                    holds_name(s, m) <==> holds_name(old_tools, m) || m == n by {
                    if holds_name(s, m) {
                        let i = choose|i: int| 0 <= i < s.len() && (#[trigger] s[i]).spec_name() == m;
                        if i != k {
                            assert(old_tools[i] == s[i]);
                        }
                    }
                    if holds_name(old_tools, m) {
                        let i = choose|i: int|
                            0 <= i < old_tools.len() && (#[trigger] old_tools[i]).spec_name() == m;
                        assert(s[i] == old_tools[i]);
                    }
                    if m == n {
                        assert(s[k as int].spec_name() == m);
                    }
                }
                assert forall|m: Seq<char>| #[trigger]
                    tools_by_name(s).contains_key(m) implies tools_by_name(s)[m] == old_tools_by_name_insert(
                    old_tools,
                    n,
                    tool,
                )[m] by {
                    let i = choose|i: int| 0 <= i < s.len() && (#[trigger] s[i]).spec_name() == m;
                    lemma_tools_by_name_at(s, i);
                    if i != k {
                        assert(old_tools[i] == s[i]);
                        lemma_tools_by_name_at(old_tools, i);
                    }
                }
                assert(tools_by_name(s) =~= tools_by_name(old_tools).insert(n, tool));
            }
        }
    }

    /// Removes the tool named `name`, if any.
    pub fn unregister(&mut self, name: &str)
        requires
            old(self).wf(),
        ensures
            final(self).wf(),
            final(self)@ == old(self)@.remove(name@),
    {
        let key = owned(name);
        let k = self.position(&key);
        let ghost old_tools = self.tools@;
        if k < self.tools.len() {
            self.tools.remove(k);
            proof {
                let s = self.tools@;
                assert(s =~= old_tools.remove(k as int));
                assert forall|i: int| 0 <= i < s.len() implies #[trigger] s[i] == old_tools[if i
                    < k {
                    i
                } else {
                    i + 1
                }] by {}
                assert(names_distinct(s)) by {
                    assert forall|i: int, j: int|
                        0 <= i < s.len() && 0 <= j < s.len() && i != j implies (#[trigger] s[i]).spec_name()
                        != (#[trigger] s[j]).spec_name() by {
                        let i2 = if i < k {
                            i
                        } else {
                            i + 1
                        };
                        let j2 = if j < k {
                            j
                        } else {
                            j + 1
                        };
                        assert(s[i] == old_tools[i2] && s[j] == old_tools[j2]);
                    }
                }
                assert forall|m: Seq<char>| #[trigger]
                    holds_name(s, m) <==> holds_name(old_tools, m) && m != name@ by {
                    if holds_name(s, m) {
                        let i = choose|i: int| 0 <= i < s.len() && (#[trigger] s[i]).spec_name() == m;
                        let i2 = if i < k {
                            i
                        } else {
                            i + 1
                        };
                        assert(s[i] == old_tools[i2]);
                        assert(old_tools[i2].spec_name() == m);
                    }
                    if holds_name(old_tools, m) && m != name@ {
                        let i = choose|i: int|
                            0 <= i < old_tools.len() && (#[trigger] old_tools[i]).spec_name() == m;
                        assert(i != k);
                        let i1 = if i < k {
                            i
                        } else {
                            i - 1
                        };
                        assert(s[i1] == old_tools[i]);
                    }
                }
                assert forall|m: Seq<char>| #[trigger]
                    tools_by_name(s).contains_key(m) implies tools_by_name(s)[m] == tools_by_name(
                    old_tools,
                )[m] by {
                    let i = choose|i: int| 0 <= i < s.len() && (#[trigger] s[i]).spec_name() == m;
                    lemma_tools_by_name_at(s, i);
                    let i2 = if i < k {
                        i
                    } else {
                        i + 1
                    };
                    assert(s[i] == old_tools[i2]);
                    lemma_tools_by_name_at(old_tools, i2);
                }
                assert(tools_by_name(s) =~= tools_by_name(old_tools).remove(name@));
            }
        } else {
            assert(tools_by_name(old_tools) =~= tools_by_name(old_tools).remove(name@));
        }
    }

    /// The tool named `name`, if any.
    pub fn get(&self, name: &str) -> (r: Option<&T>)
        requires
            self.wf(),
        ensures
            match r {
                Some(t) => self@.contains_key(name@) && *t == self@[name@],
                None => !self@.contains_key(name@),
            },
    {
        let key = owned(name);
        let k = self.position(&key);
        if k < self.tools.len() {
            proof {
                lemma_tools_by_name_at(self.tools@, k as int);
            }
            Some(&self.tools[k])
        } else {
            None
        }
    }

    /// The registered tools in the order [`Self::list`] gives them.
    pub closed spec fn list_spec(&self) -> Seq<T> {
        self.tools@
    }

    /// Every registered tool, once each.
    pub fn list(&self) -> (r: &Vec<T>)
        requires
            self.wf(),
        ensures
            r@ == self.list_spec(),
            names_distinct(r@),
            forall|i: int|
                0 <= i < r@.len() ==> self@.contains_key((#[trigger] r@[i]).spec_name())
                    && self@[r@[i].spec_name()] == r@[i],
            forall|n: Seq<char>| #[trigger] self@.contains_key(n) ==> holds_name(r@, n),
    {
        proof {
            assert forall|i: int| 0 <= i < self.tools@.len() implies self@.contains_key(
                (#[trigger] self.tools@[i]).spec_name(),
            ) && self@[self.tools@[i].spec_name()] == self.tools@[i] by {
                lemma_tools_by_name_at(self.tools@, i);
            }
        }
        &self.tools
    }
}

/// A registry of tools by name.
pub trait ToolRegistry<T: Tool> {
    /// The registered tools by name.
    spec fn tools(&self) -> Map<Seq<char>, T>;

    /// Whether the registry is well formed.
    spec fn registry_wf(&self) -> bool;

    /// Registers `tool` under its name, replacing a tool of the same name.
    fn register(&mut self, tool: T)
        requires
            old(self).registry_wf(),
        ensures
            final(self).registry_wf(),
            final(self).tools() == old(self).tools().insert(tool.spec_name(), tool),
    ;

    /// Removes the tool named `name`, if any.
    fn unregister(&mut self, name: &str)
        requires
            old(self).registry_wf(),
        ensures
            final(self).registry_wf(),
            final(self).tools() == old(self).tools().remove(name@),
    ;

    /// The tool named `name`, if any.
    fn get(&self, name: &str) -> (r: Option<&T>)
        requires
            self.registry_wf(),
        ensures
            match r {
                Some(t) => self.tools().contains_key(name@) && *t == self.tools()[name@],
                None => !self.tools().contains_key(name@),
            },
    ;

    /// Every registered tool, once each.
    fn list(&self) -> (r: &Vec<T>)
        requires
            self.registry_wf(),
        ensures
            names_distinct(r@),
            forall|i: int|
                0 <= i < r@.len() ==> self.tools().contains_key((#[trigger] r@[i]).spec_name())
                    && self.tools()[r@[i].spec_name()] == r@[i],
            forall|n: Seq<char>| #[trigger] self.tools().contains_key(n) ==> holds_name(r@, n),
    ;
}

impl<T: Tool> ToolRegistry<T> for ToolRegistryImpl<T> {
    open spec fn tools(&self) -> Map<Seq<char>, T> {
        self@
    }

    open spec fn registry_wf(&self) -> bool {
        self.wf()
    }

    fn register(&mut self, tool: T) {
        ToolRegistryImpl::register(self, tool)
    }

    fn unregister(&mut self, name: &str) {
        ToolRegistryImpl::unregister(self, name)
    }

    fn get(&self, name: &str) -> (r: Option<&T>) {
        ToolRegistryImpl::get(self, name)
    }

    fn list(&self) -> (r: &Vec<T>) {
        ToolRegistryImpl::list(self)
    }
}

/// The map of `old` with `n` bound to `tool`.
pub open spec fn old_tools_by_name_insert<T: Tool>(old: Seq<T>, n: Seq<char>, tool: T) -> Map<
    Seq<char>,
    T,
> {
    tools_by_name(old).insert(n, tool)
}

/// A tool registered under its name is what a lookup of that name gives, and
/// lookups of other names are as before; after unregistering a name, a lookup
/// of it finds nothing and lookups of other names are as before.
pub proof fn register_then_get<T: Tool>(m: Map<Seq<char>, T>, tool: T, other: Seq<char>)
    ensures
        m.insert(tool.spec_name(), tool).contains_key(tool.spec_name()),
        m.insert(tool.spec_name(), tool)[tool.spec_name()] == tool,
        other != tool.spec_name() ==> (m.insert(tool.spec_name(), tool).contains_key(other)
            == m.contains_key(other) && (m.contains_key(other) ==> m.insert(
            tool.spec_name(),
            tool,
        )[other] == m[other])),
        !m.remove(other).contains_key(other),
        forall|n: Seq<char>|
            n != other ==> (#[trigger] m.remove(other).contains_key(n) == m.contains_key(n) && (
            m.contains_key(n) ==> m.remove(other)[n] == m[n])),
{
}

/// Registers the four built-in tools, reading and writing under `personas_dir`.
pub fn register_builtin_tools(registry: &mut ToolRegistryImpl<BuiltinTool>, personas_dir: String)
    requires
        old(registry).wf(),
    ensures
        final(registry).wf(),
        final(registry)@ == old(registry)@.insert(
            file_read_name(),
            BuiltinTool::FileRead(FileReadTool { personas_dir }),
        ).insert(file_write_name(), BuiltinTool::FileWrite(FileWriteTool { personas_dir })).insert(
            schedule_name(),
            BuiltinTool::Schedule(ScheduleTool),
        ).insert(get_version_name(), BuiltinTool::GetVersion(GetVersionTool)),
{
    registry.register(BuiltinTool::FileRead(FileReadTool::new(personas_dir.clone())));
    registry.register(BuiltinTool::FileWrite(FileWriteTool::new(personas_dir)));
    registry.register(BuiltinTool::Schedule(ScheduleTool));
    registry.register(BuiltinTool::GetVersion(GetVersionTool));
}

/// Whether `d` describes `t` to the model.
pub open spec fn def_of<T: Tool>(d: ToolDefView, t: T) -> bool {
    &&& d.name == t.spec_name()
    &&& d.description == t.spec_description()
    &&& d.parameters == t.spec_parameters()
}

/// The definitions of the tools of `tools`, in order.
pub fn build_tool_defs<T: Tool>(tools: &Vec<T>) -> (r: Vec<ToolDef>)
    ensures
        r@.len() == tools@.len(),
        forall|i: int| 0 <= i < r@.len() ==> def_of((#[trigger] r@[i])@, tools@[i]),
{
    let mut r: Vec<ToolDef> = Vec::new();
    let mut k: usize = 0;
    while k < tools.len()
        invariant
            k <= tools@.len(),
            r@.len() == k,
            forall|i: int| 0 <= i < k ==> def_of((#[trigger] r@[i])@, tools@[i]),
        decreases tools.len() - k,
    {
        let t = &tools[k];
        r.push(ToolDef { name: t.name(), description: t.description(), parameters: t.parameters() });
        k = k + 1;
    }
    r
}

// ───────────────────────── running the file tools ─────────────────────────

/// The string under `key` in the JSON object that `text` holds, as
/// `serde_json` reads it; `None` when `text` is no JSON, holds no object, or
/// the value under `key` is missing or not a string.
pub uninterp spec fn spec_json_str_field(text: Seq<char>, key: Seq<char>) -> Option<Seq<char>>;

/// Parses `text` with `serde_json::from_str` (taking `Null` when it fails),
/// indexes the value with `key` and keeps the string there, if any. Only the
/// result is named.
#[verifier::external_body]
pub(crate) fn json_str_field(text: &str, key: &str) -> (r: Option<String>)
    ensures
        opt_view(r) == spec_json_str_field(text@, key@),
{
    let v: serde_json::Value = serde_json::from_str(text).unwrap_or_default();
    match v[key].as_str() {
        Some(s) => Some(s.to_string()),
        None => None,
    }
}

/// Why a tool run failed before touching the file system.
#[derive(Debug, PartialEq, Eq, Structural)]
pub enum ToolError {
    MissingPath,
    MissingContent,
    PermissionDenied,
}

impl ToolError {
    /// The error message.
    pub fn message(&self) -> (r: String)
        ensures
            *self == ToolError::MissingPath ==> r@ == "missing 'path' argument"@,
            *self == ToolError::MissingContent ==> r@ == "missing 'content' argument"@,
            *self == ToolError::PermissionDenied ==> r@ == "permission denied"@,
    {
        match self {
            ToolError::MissingPath => owned("missing 'path' argument"),
            ToolError::MissingContent => owned("missing 'content' argument"),
            ToolError::PermissionDenied => owned("permission denied"),
        }
    }
}

/// The `path` argument of a file tool call.
pub fn path_argument(args: &str) -> (r: Result<String, ToolError>)
    ensures
        match spec_json_str_field(args@, "path"@) {
            Some(p) => r matches Ok(s) && s@ == p,
            None => r == Err::<String, ToolError>(ToolError::MissingPath),
        },
{
    match json_str_field(args, "path") {
        Some(p) => Ok(p),
        None => Err(ToolError::MissingPath),
    }
}

/// The `content` argument of a `file_write` call.
pub fn content_argument(args: &str) -> (r: Result<String, ToolError>)
    ensures
        match spec_json_str_field(args@, "content"@) {
            Some(c) => r matches Ok(s) && s@ == c,
            None => r == Err::<String, ToolError>(ToolError::MissingContent),
        },
{
    match json_str_field(args, "content") {
        Some(c) => Ok(c),
        None => Err(ToolError::MissingContent),
    }
}

/// Whether `target` lies within the persona's (canonical) workspace: its
/// components begin with the workspace's, and following its `..` components
/// never climbs out of the workspace (see [`stays_within_spec`]).
pub open spec fn inside_workspace(target: Seq<char>, workspace: Seq<char>) -> bool {
    stays_within_spec(target, workspace)
}

/// Whether touching `target` needs the user's permission: it does when
/// `target` does not lie within the persona's workspace (see
/// [`inside_workspace`]).
pub fn outside_workspace(target: &str, workspace: &str) -> (r: bool)
    ensures
        r == !inside_workspace(target@, workspace@),
{
    !stays_within(target, workspace)
}

/// The question put to the user when persona `persona` wants to `verb`
/// (`read` or `write`) `path` outside its workspace.
pub fn permission_prompt(persona: &str, verb: &str, path: &str) -> (r: String)
    ensures
        r@ == persona@ + " wants to "@ + verb@ + " outside its workspace: "@ + path@,
{
    let mut r = owned(persona);
    push_str(&mut r, " wants to ");
    push_str(&mut r, verb);
    push_str(&mut r, " outside its workspace: ");
    push_str(&mut r, path);
    r
}

/// The path made of the components of `p` pushed one by one (see
/// [`components`]).
pub open spec fn rebuild_path(cs: Seq<Seq<char>>) -> Seq<char>
    decreases cs.len(),
{
    if cs.len() == 0 {
        Seq::empty()
    } else {
        crate::text::path_join_spec(rebuild_path(cs.drop_last()), cs.last())
    }
}

/// The one segment of a slash-free text is the text itself.
proof fn lemma_single_segment(x: Seq<char>)
    requires
        !crate::text::has_char(x, '/'),
    ensures
        segments(x) == seq![x],
{
    crate::text::lemma_find(x, '/');
}

/// Rebuilding an absolute path from the root and normal components gives a
/// path whose components are exactly those.
proof fn lemma_rebuild_components(n: Seq<Seq<char>>)
    requires
        forall|i: int| 0 <= i < n.len() ==> is_normal(#[trigger] n[i]),
    ensures
        rebuild_path(seq![seq!['/']] + n).len() > 0,
        rebuild_path(seq![seq!['/']] + n)[0] == '/',
        components(rebuild_path(seq![seq!['/']] + n)) == seq![seq!['/']] + n,
    decreases n.len(),
{
    let root = seq!['/'];
    let cs = seq![root] + n;
    if n.len() == 0 {
        assert(cs =~= seq![root]);
        assert(cs.drop_last() =~= Seq::<Seq<char>>::empty());
        assert(rebuild_path(cs) =~= root);
        let e = Seq::<char>::empty();
        assert(root =~= e + seq!['/'] + e);
        lemma_segments_concat(e, e);
        lemma_single_segment(e);
        lemma_absolute_components(root);
        assert(segments(root).drop_first() =~= seq![e]);
        assert(seq![e].drop_first() =~= Seq::<Seq<char>>::empty());
        assert(normal_parts(Seq::<Seq<char>>::empty()) == Seq::<Seq<char>>::empty());
        assert(normal_parts(seq![e]) =~= Seq::<Seq<char>>::empty());
        assert(components(root) =~= seq![root]);
    } else {
        let m = n.drop_last();
        let x = n.last();
        assert forall|i: int| 0 <= i < m.len() implies is_normal(#[trigger] m[i]) by {
            assert(m[i] == n[i]);
        }
        lemma_rebuild_components(m);
        let r = rebuild_path(seq![root] + m);
        assert(cs.drop_last() =~= seq![root] + m);
        assert(cs.last() == x);
        assert(is_normal(n[n.len() - 1]));
        assert(x[0] != '/') by {
            if x[0] == '/' {
                assert(crate::text::has_char(x, '/'));
            }
        }
        lemma_join_components(r, x);
        lemma_single_segment(x);
        let single = seq![x];
        assert(single.drop_first() =~= Seq::<Seq<char>>::empty());
        assert(normal_parts(Seq::<Seq<char>>::empty()) == Seq::<Seq<char>>::empty());
        assert(normal_parts(single) =~= single);
        assert(rebuild_path(cs) == crate::text::path_join_spec(r, x));
        assert(components(rebuild_path(cs)) =~= cs);
    }
}

/// A relative path free of `..`, joined to a workspace whose canonical path
/// is absolute, lies inside the workspace once rebuilt from its components:
/// writing there before the file exists needs no permission (see
/// [`crate::file_access::FileAccess::on_resolved`]).
pub proof fn relative_path_stays_inside(workspace: Seq<char>, rel: Seq<char>)
    requires
        workspace.len() > 0,
        workspace[0] == '/',
        rel.len() == 0 || rel[0] != '/',
        !components(rel).contains(parent_dir()),
    ensures
        inside_workspace(
            rebuild_path(components(crate::text::path_join_spec(workspace, rel))),
            workspace,
        ),
{
    let root = seq!['/'];
    let cw = components(workspace);
    let segs = segments(rel);
    let nr = normal_parts(segs);
    lemma_join_components(workspace, rel);
    lemma_absolute_components(workspace);
    lemma_segments_no_slash(rel);
    lemma_normal_parts_normal(segs);
    let nw = cw.drop_first();
    let cp = cw + nr;
    assert(cp =~= seq![root] + (nw + nr));
    assert forall|i: int| 0 <= i < (nw + nr).len() implies is_normal(#[trigger] (nw + nr)[i]) by {
        if i < nw.len() {
            assert((nw + nr)[i] == cw[i + 1]);
        } else {
            assert((nw + nr)[i] == nr[i - nw.len()]);
        }
    }
    lemma_rebuild_components(nw + nr);
    let target = rebuild_path(cp);
    assert(components(target) == cp);
    assert(cp.subrange(0, cw.len() as int) =~= cw);
    assert(cw.is_prefix_of(cp));
    // the relative part's normal parts are among its components
    assert forall|c: Seq<char>| nr.contains(c) implies components(rel).contains(c) by {
        let k = choose|k: int| 0 <= k < nr.len() && nr[k] == c;
        crate::path::lemma_segments_nonempty(rel);
        if segs[0] == seq!['.'] {
            assert(nr == normal_parts(segs.drop_first()));
            assert(components(rel) == seq![seq!['.']] + nr);
            assert(components(rel)[k + 1] == c);
        } else {
            assert(components(rel) == nr);
        }
    }
    assert(cp.subrange(cw.len() as int, cp.len() as int) =~= nr);
    assert(!nr.contains(parent_dir()));
    lemma_no_parent_stays_below(nr, 0);
}

/// The path `p` rebuilt from its components: repeated separators and inner
/// `.` segments are gone.
pub fn clean_path(p: &str) -> (r: String)
    ensures
        r@ == rebuild_path(components(p@)),
{
    let cs = components_of(p);
    let ghost cv = cs@.map_values(|x: Vec<char>| x@);
    let mut out = String::new();
    let mut k: usize = 0;
    assert(cv.subrange(0, 0) =~= Seq::<Seq<char>>::empty());
    while k < cs.len()
        invariant
            k <= cs@.len(),
            cv == cs@.map_values(|x: Vec<char>| x@),
            out@ == rebuild_path(cv.subrange(0, k as int)),
        decreases cs.len() - k,
    {
        let piece = crate::text::string_of(&cs[k]);
        let joined = crate::text::path_join(out.as_str(), piece.as_str());
        proof {
            let pre = cv.subrange(0, k + 1);
            assert(pre.drop_last() =~= cv.subrange(0, k as int));
            assert(pre.last() == cs@[k as int]@);
        }
        out = joined;
        k = k + 1;
    }
    assert(cv.subrange(0, cs@.len() as int) =~= cv);
    out
}

/// What a successful `file_write` answers: `ok: wrote `, the byte length of
/// the content, ` bytes`.
pub fn write_result(content: &str) -> (r: String)
    requires
        content.spec_bytes().len() <= usize::MAX,
    ensures
        r@ == "ok: wrote "@ + digits_of(content.spec_bytes().len()) + " bytes"@,
{
    let n = content.len();
    let mut r = owned("ok: wrote ");
    let d = decimal_u64_chars(n as u64);
    push_chars(&mut r, &d);
    push_str(&mut r, " bytes");
    r
}

/// What `schedule` answers.
pub fn schedule_result() -> (r: String)
    ensures
        r@ == "schedule accepted (scheduler not yet implemented)"@,
{
    owned("schedule accepted (scheduler not yet implemented)")
}

} // verus!
