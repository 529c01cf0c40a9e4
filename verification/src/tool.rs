//! Tools: named computation tasks with machine-readable descriptors, and the
//! registry that collects them into the lookup table a model-call task uses.

use vstd::prelude::*;

use crate::json::{duplicate_items, lemma_views_of, views_of, JsonData, JsonVal};
use crate::node::FunctionNode;
use crate::text::str_eq;

verus! {

/// A named computation task plus the descriptor advertised to the remote
/// model.
pub struct Tool {
    name: String,
    tool_fn: FunctionNode,
    tool_details: JsonVal,
}

impl Tool {
    /// The tool's name.
    pub closed spec fn spec_name(&self) -> Seq<char> {
        self.name@
    }

    /// The descriptor advertised to the remote model.
    pub closed spec fn spec_details(&self) -> JsonData {
        self.tool_details@
    }

    /// A tool with the given name and task, and no descriptor yet.
    pub fn new(tool_name: String, tool_fn: FunctionNode) -> (t: Tool)
        ensures
            t.spec_name() == tool_name@,
            t.spec_details() == JsonData::Null,
    {
        Tool { name: tool_name, tool_fn, tool_details: JsonVal::Null }
    }

    /// The same tool carrying the given descriptor.
    pub fn add_tool_details(self, tool_details: JsonVal) -> (t: Tool)
        ensures
            t.spec_name() == self.spec_name(),
            t.spec_details() == tool_details@,
    {
        Tool { name: self.name, tool_fn: self.tool_fn, tool_details }
    }

    /// Runs the tool's computation task against the blackboard. The outcome
    /// is the stored function's own: nothing is known of it here.
    pub(crate) fn run_once(&self, state: &mut crate::state::State) -> Result<
        (),
        crate::node::RllmError,
    > {
        self.tool_fn.run_once(state)
    }
}

/// The lookup table from tool name to tool: later registrations shadow
/// earlier ones with the same name.
pub open spec fn tool_map_of(entries: Seq<Tool>) -> Map<Seq<char>, Tool>
    decreases entries,
{
    if entries.len() == 0 {
        Map::empty()
    } else {
        tool_map_of(entries.drop_last()).insert(entries.last().spec_name(), entries.last())
    }
}

/// The lookup table a model-call task dispatches through.
pub struct ToolMap {
    entries: Vec<Tool>,
}

impl View for ToolMap {
    type V = Map<Seq<char>, Tool>;

    closed spec fn view(&self) -> Map<Seq<char>, Tool> {
        tool_map_of(self.entries@)
    }
}

impl ToolMap {
    /// An empty table.
    pub fn new() -> (m: ToolMap)
        ensures
            m@ == Map::<Seq<char>, Tool>::empty(),
    {
        ToolMap { entries: Vec::new() }
    }

    /// Adds a tool under its own name, shadowing any earlier tool of that
    /// name.
    pub fn insert(&mut self, tool: Tool)
        ensures
            final(self)@ == old(self)@.insert(tool.spec_name(), tool),
    {
        proof {
            assert(self.entries@.push(tool).drop_last() =~= self.entries@);
        }
        self.entries.push(tool);
    }

    /// The tool registered under a name, if any.
    pub(crate) fn get(&self, name: &str) -> (r: Option<&Tool>)
        ensures
            match r {
                Some(t) => self@.contains_key(name@) && *t == self@[name@],
                None => !self@.contains_key(name@),
            },
    {
        let ghost key = name@;
        let mut k: usize = self.entries.len();
        proof {
            assert(self.entries@.take(k as int) =~= self.entries@);
        }
        while k > 0
            invariant
                k <= self.entries@.len(),
                tool_map_of(self.entries@).contains_key(key) == tool_map_of(
                    self.entries@.take(k as int),
                ).contains_key(key),
                tool_map_of(self.entries@).contains_key(key) ==> tool_map_of(self.entries@)[key]
                    == tool_map_of(self.entries@.take(k as int))[key],
                key == name@,
            decreases k,
        {
            k = k - 1;
            proof {
                assert(self.entries@.take(k as int + 1).drop_last() =~= self.entries@.take(
                    k as int,
                ));
                assert(self.entries@.take(k as int + 1).last() == self.entries@[k as int]);
            }
            if str_eq(self.entries[k].name.as_str(), name) {
                return Some(&self.entries[k]);
            }
        }
        proof {
            assert(self.entries@.take(0) =~= Seq::<Tool>::empty());
        }
        None
    }
}

/// Collects tools and their descriptors; consumed once into the lookup table
/// a model-call task dispatches through.
pub struct ToolRegistry {
    tool_map: ToolMap,
    tools: Vec<JsonVal>,
}

impl ToolRegistry {
    /// The lookup table collected so far.
    pub closed spec fn spec_tool_map(&self) -> Map<Seq<char>, Tool> {
        self.tool_map@
    }

    /// The descriptors collected so far, in registration order.
    pub closed spec fn spec_tool_list(&self) -> Seq<JsonData> {
        views_of(self.tools@)
    }

    /// An empty registry.
    pub fn new() -> (r: ToolRegistry)
        ensures
            r.spec_tool_map() == Map::<Seq<char>, Tool>::empty(),
            r.spec_tool_list() == Seq::<JsonData>::empty(),
    {
        ToolRegistry { tool_map: ToolMap::new(), tools: Vec::new() }
    }

    /// Records a tool: its descriptor joins the advertised list, and the tool
    /// itself joins the lookup table under its name.
    pub fn register(&mut self, tool: Tool)
        ensures
            final(self).spec_tool_map() == old(self).spec_tool_map().insert(
                tool.spec_name(),
                tool,
            ),
            final(self).spec_tool_list() == old(self).spec_tool_list().push(tool.spec_details()),
    {
        let details = tool.tool_details.duplicate();
        proof {
            assert(self.tools@.push(details).drop_last() =~= self.tools@);
        }
        self.tools.push(details);
        self.tool_map.insert(tool);
    }

    /// Consumes the registry into the lookup table.
    pub fn get_tools(self) -> (m: ToolMap)
        ensures
            m@ == self.spec_tool_map(),
    {
        self.tool_map
    }

    /// A copy of the advertised descriptor list, in registration order.
    pub fn get_tool_list(&self) -> (r: Vec<JsonVal>)
        ensures
            views_of(r@) == self.spec_tool_list(),
    {
        let copied = duplicate_items(&self.tools);
        proof {
            lemma_views_of(copied@);
            lemma_views_of(self.tools@);
            assert(views_of(copied@) =~= views_of(self.tools@));
        }
        copied
    }
}

} // verus!
