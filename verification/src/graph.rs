//! The task graph: a builder that accumulates named tasks and directed
//! edges, the compiled graph, and the run that executes tasks in edge order,
//! at most once each.

use vstd::prelude::*;

use crate::llm::LLMNode;
use crate::node::{FunctionNode, Node, RllmError};
use crate::state::StateBuilder;
use crate::text::str_eq;

verus! {

/// A unit of work a graph can hold: a computation task or a model-call task.
pub enum Task {
    Function(FunctionNode),
    Llm(LLMNode),
}

impl Node for Task {
    fn execute(&self, state: &mut crate::state::State) -> Result<(), RllmError> {
        match self {
            Task::Function(f) => f.execute(state),
            Task::Llm(l) => LLMNode::execute(l, state),
        }
    }
}

/// The registered tasks as a mapping: later registrations shadow earlier
/// ones with the same name.
pub open spec fn task_map_of(entries: Seq<(String, Task)>) -> Map<Seq<char>, Task>
    decreases entries,
{
    if entries.len() == 0 {
        Map::empty()
    } else {
        task_map_of(entries.drop_last()).insert(entries.last().0@, entries.last().1)
    }
}

/// The edge list as pairs of names.
pub open spec fn edge_views(edges: Seq<(String, String)>) -> Seq<(Seq<char>, Seq<char>)> {
    Seq::new(edges.len(), |i: int| (edges[i].0@, edges[i].1@))
}

/// The source of every edge, in insertion order, duplicates kept.
pub open spec fn sources_of(edges: Seq<(Seq<char>, Seq<char>)>) -> Seq<Seq<char>> {
    Seq::new(edges.len(), |i: int| edges[i].0)
}

/// Each source mapped to its destinations, in insertion order, duplicates
/// kept.
pub open spec fn adj_of(edges: Seq<(Seq<char>, Seq<char>)>) -> Map<Seq<char>, Seq<Seq<char>>>
    decreases edges,
{
    if edges.len() == 0 {
        Map::empty()
    } else {
        let m = adj_of(edges.drop_last());
        let e = edges.last();
        let prior = if m.contains_key(e.0) {
            m[e.0]
        } else {
            Seq::empty()
        };
        m.insert(e.0, prior.push(e.1))
    }
}

/// The adjacency table as a mapping: entries keyed by source name.
pub open spec fn adjmap_of(entries: Seq<(String, Vec<String>)>) -> Map<Seq<char>, Seq<Seq<char>>>
    decreases entries,
{
    if entries.len() == 0 {
        Map::empty()
    } else {
        adjmap_of(entries.drop_last()).insert(
            entries.last().0@,
            entries.last().1.deep_view(),
        )
    }
}

/// What a graph compiles to.
#[verifier::ext_equal]
pub ghost struct GraphView {
    pub nodes: Map<Seq<char>, Task>,
    pub starts: Seq<Seq<char>>,
    pub adj: Map<Seq<char>, Seq<Seq<char>>>,
}

/// One visit attempt: a name joins the order when it is a registered task
/// not yet visited.
pub open spec fn visit_step(
    order: Seq<Seq<char>>,
    name: Seq<char>,
    dom: Set<Seq<char>>,
) -> Seq<Seq<char>> {
    if dom.contains(name) && !order.contains(name) {
        order.push(name)
    } else {
        order
    }
}

/// Visit attempts over a list of names, left to right.
pub open spec fn visit_list(
    order: Seq<Seq<char>>,
    names: Seq<Seq<char>>,
    dom: Set<Seq<char>>,
) -> Seq<Seq<char>>
    decreases names.len(),
{
    if names.len() == 0 {
        order
    } else {
        visit_list(visit_step(order, names.first(), dom), names.drop_first(), dom)
    }
}

/// The traversal over the start list: each start is visited, then each of
/// its destinations, before the next start is considered.
pub open spec fn visit_starts(
    order: Seq<Seq<char>>,
    starts: Seq<Seq<char>>,
    dom: Set<Seq<char>>,
    adj: Map<Seq<char>, Seq<Seq<char>>>,
) -> Seq<Seq<char>>
    decreases starts.len(),
{
    if starts.len() == 0 {
        order
    } else {
        let o1 = visit_step(order, starts.first(), dom);
        let o2 = if adj.contains_key(starts.first()) {
            visit_list(o1, adj[starts.first()], dom)
        } else {
            o1
        };
        visit_starts(o2, starts.drop_first(), dom, adj)
    }
}

/// The names a run executes, in order.
pub open spec fn execution_plan(g: GraphView) -> Seq<Seq<char>> {
    visit_starts(Seq::empty(), g.starts, g.nodes.dom(), g.adj)
}

/// No name repeats in a sequence.
pub open spec fn distinct_names(s: Seq<Seq<char>>) -> bool {
    forall|p: int, q: int| 0 <= p < q < s.len() ==> s[p] != s[q]
}

proof fn lemma_step_keeps_distinct(order: Seq<Seq<char>>, name: Seq<char>, dom: Set<Seq<char>>)
    requires
        distinct_names(order),
    ensures
        distinct_names(visit_step(order, name, dom)),
        forall|p: int| 0 <= p < order.len() ==> visit_step(order, name, dom)[p] == order[p],
        order.len() <= visit_step(order, name, dom).len(),
        forall|p: int|
            0 <= p < visit_step(order, name, dom).len() ==> order.contains(
                #[trigger] visit_step(order, name, dom)[p],
            ) || (visit_step(order, name, dom)[p] == name && dom.contains(name)),
{
    if dom.contains(name) && !order.contains(name) {
        assert forall|p: int, q: int|
            0 <= p < q < order.push(name).len() implies order.push(name)[p] != order.push(
            name,
        )[q] by {
            if q == order.len() {
                assert(!order.contains(name));
                assert(order[p] != name);
            }
        }
    }
}

proof fn lemma_list_keeps_distinct(
    order: Seq<Seq<char>>,
    names: Seq<Seq<char>>,
    dom: Set<Seq<char>>,
)
    requires
        distinct_names(order),
    ensures
        distinct_names(visit_list(order, names, dom)),
    decreases names.len(),
{
    if names.len() > 0 {
        lemma_step_keeps_distinct(order, names.first(), dom);
        lemma_list_keeps_distinct(visit_step(order, names.first(), dom), names.drop_first(), dom);
    }
}

proof fn lemma_starts_keeps_distinct(
    order: Seq<Seq<char>>,
    starts: Seq<Seq<char>>,
    dom: Set<Seq<char>>,
    adj: Map<Seq<char>, Seq<Seq<char>>>,
)
    requires
        distinct_names(order),
    ensures
        distinct_names(visit_starts(order, starts, dom, adj)),
    decreases starts.len(),
{
    if starts.len() > 0 {
        lemma_step_keeps_distinct(order, starts.first(), dom);
        let o1 = visit_step(order, starts.first(), dom);
        if adj.contains_key(starts.first()) {
            lemma_list_keeps_distinct(o1, adj[starts.first()], dom);
            lemma_starts_keeps_distinct(
                visit_list(o1, adj[starts.first()], dom),
                starts.drop_first(),
                dom,
                adj,
            );
        } else {
            lemma_starts_keeps_distinct(o1, starts.drop_first(), dom, adj);
        }
    }
}

/// Law: a run executes each task at most once — the execution plan never
/// repeats a name, however many edges name it.
pub proof fn lemma_plan_no_duplicates(g: GraphView)
    ensures
        distinct_names(execution_plan(g)),
{
    lemma_starts_keeps_distinct(Seq::empty(), g.starts, g.nodes.dom(), g.adj);
}

proof fn lemma_step_only_registered(order: Seq<Seq<char>>, name: Seq<char>, dom: Set<Seq<char>>)
    requires
        forall|p: int| 0 <= p < order.len() ==> dom.contains(#[trigger] order[p]),
    ensures
        forall|p: int|
            0 <= p < visit_step(order, name, dom).len() ==> dom.contains(
                #[trigger] visit_step(order, name, dom)[p],
            ),
{
}

proof fn lemma_list_only_registered(
    order: Seq<Seq<char>>,
    names: Seq<Seq<char>>,
    dom: Set<Seq<char>>,
)
    requires
        forall|p: int| 0 <= p < order.len() ==> dom.contains(#[trigger] order[p]),
    ensures
        forall|p: int|
            0 <= p < visit_list(order, names, dom).len() ==> dom.contains(
                #[trigger] visit_list(order, names, dom)[p],
            ),
    decreases names.len(),
{
    if names.len() > 0 {
        lemma_step_only_registered(order, names.first(), dom);
        lemma_list_only_registered(visit_step(order, names.first(), dom), names.drop_first(), dom);
        assert(visit_list(order, names, dom) == visit_list(
            visit_step(order, names.first(), dom),
            names.drop_first(),
            dom,
        ));
    }
}

proof fn lemma_starts_only_registered(
    order: Seq<Seq<char>>,
    starts: Seq<Seq<char>>,
    dom: Set<Seq<char>>,
    adj: Map<Seq<char>, Seq<Seq<char>>>,
)
    requires
        forall|p: int| 0 <= p < order.len() ==> dom.contains(#[trigger] order[p]),
    ensures
        forall|p: int|
            0 <= p < visit_starts(order, starts, dom, adj).len() ==> dom.contains(
                #[trigger] visit_starts(order, starts, dom, adj)[p],
            ),
    decreases starts.len(),
{
    if starts.len() > 0 {
        lemma_step_only_registered(order, starts.first(), dom);
        let o1 = visit_step(order, starts.first(), dom);
        if adj.contains_key(starts.first()) {
            lemma_list_only_registered(o1, adj[starts.first()], dom);
            lemma_starts_only_registered(
                visit_list(o1, adj[starts.first()], dom),
                starts.drop_first(),
                dom,
                adj,
            );
            assert(visit_starts(order, starts, dom, adj) == visit_starts(
                visit_list(o1, adj[starts.first()], dom),
                starts.drop_first(),
                dom,
                adj,
            ));
        } else {
            lemma_starts_only_registered(o1, starts.drop_first(), dom, adj);
            assert(visit_starts(order, starts, dom, adj) == visit_starts(
                o1,
                starts.drop_first(),
                dom,
                adj,
            ));
        }
    }
}

/// Law: a name an edge mentions but no task registration covers never enters
/// the execution plan: it is skipped without error, and the run goes on with
/// the registered tasks.
pub proof fn lemma_plan_only_registered(g: GraphView)
    ensures
        forall|p: int|
            0 <= p < execution_plan(g).len() ==> g.nodes.dom().contains(
                #[trigger] execution_plan(g)[p],
            ),
{
    lemma_starts_only_registered(Seq::empty(), g.starts, g.nodes.dom(), g.adj);
}

/// Whether a name is already in the visited order.
fn contains_name(order: &Vec<String>, name: &str) -> (r: bool)
    ensures
        r == order.deep_view().contains(name@),
{
    let mut k: usize = 0;
    while k < order.len()
        invariant
            k <= order@.len(),
            forall|j: int| 0 <= j < k as int ==> order.deep_view()[j] != name@,
        decreases order@.len() - k,
    {
        if str_eq(order[k].as_str(), name) {
            assert(order.deep_view()[k as int] == name@);
            return true;
        }
        k = k + 1;
    }
    assert(forall|j: int| 0 <= j < order.deep_view().len() ==> order.deep_view()[j] != name@);
    false
}

/// Accumulates named tasks and directed edges between task names.
pub struct GraphBuilder {
    nodes: Vec<(String, Task)>,
    edges: Vec<(String, String)>,
}

/// What a builder holds.
#[verifier::ext_equal]
pub ghost struct GraphBuilderView {
    pub nodes: Map<Seq<char>, Task>,
    pub edges: Seq<(Seq<char>, Seq<char>)>,
}

impl View for GraphBuilder {
    type V = GraphBuilderView;

    closed spec fn view(&self) -> GraphBuilderView {
        GraphBuilderView { nodes: task_map_of(self.nodes@), edges: edge_views(self.edges@) }
    }
}

/// An immutable compiled graph: the tasks, the ordered list of edge sources,
/// and each source's ordered destinations.
pub struct Graph {
    nodes: Vec<(String, Task)>,
    start_edges: Vec<String>,
    adjacent_edge_map: Vec<(String, Vec<String>)>,
}

impl View for Graph {
    type V = GraphView;

    closed spec fn view(&self) -> GraphView {
        GraphView {
            nodes: task_map_of(self.nodes@),
            starts: self.start_edges.deep_view(),
            adj: adjmap_of(self.adjacent_edge_map@),
        }
    }
}

impl GraphBuilder {
    /// An empty builder.
    pub fn new() -> (b: GraphBuilder)
        ensures
            b@.nodes == Map::<Seq<char>, Task>::empty(),
            b@.edges == Seq::<(Seq<char>, Seq<char>)>::empty(),
    {
        let b = GraphBuilder { nodes: Vec::new(), edges: Vec::new() };
        proof {
            assert(b@.edges =~= Seq::<(Seq<char>, Seq<char>)>::empty());
        }
        b
    }

    /// Registers a task under a name, replacing any earlier task of that
    /// name.
    pub fn add_node(&mut self, node_name: String, node: Task)
        ensures
            final(self)@.nodes == old(self)@.nodes.insert(node_name@, node),
            final(self)@.edges == old(self)@.edges,
    {
        proof {
            assert(self.nodes@.push((node_name, node)).drop_last() =~= self.nodes@);
        }
        self.nodes.push((node_name, node));
        proof {
            assert(self@.edges =~= old(self)@.edges);
        }
    }

    /// Appends a directed edge between two task names; duplicates are kept.
    pub fn add_edge(&mut self, edge: (String, String))
        ensures
            final(self)@.edges == old(self)@.edges.push((edge.0@, edge.1@)),
            final(self)@.nodes == old(self)@.nodes,
    {
        let ghost before = self.edges@;
        self.edges.push(edge);
        proof {
            assert(edge_views(self.edges@) =~= edge_views(before).push((edge.0@, edge.1@)));
        }
    }
}

/// The table contains a key exactly when some entry carries it.
proof fn lemma_adjmap_contains(entries: Seq<(String, Vec<String>)>, key: Seq<char>)
    ensures
        adjmap_of(entries).contains_key(key) == (exists|j: int|
            0 <= j < entries.len() && (#[trigger] entries[j].0)@ == key),
    decreases entries.len(),
{
    if entries.len() > 0 {
        lemma_adjmap_contains(entries.drop_last(), key);
        if adjmap_of(entries).contains_key(key) {
            if entries.last().0@ == key {
                assert(entries[entries.len() - 1].0@ == key);
            } else {
                let j = choose|j: int|
                    0 <= j < entries.drop_last().len() && (#[trigger] entries.drop_last()[j].0)@
                        == key;
                assert(entries[j].0@ == key);
            }
        }
        if exists|j: int| 0 <= j < entries.len() && (#[trigger] entries[j].0)@ == key {
            let j = choose|j: int| 0 <= j < entries.len() && (#[trigger] entries[j].0)@ == key;
            if j < entries.len() - 1 {
                assert(entries.drop_last()[j].0@ == key);
            }
        }
    }
}

/// With pairwise-distinct keys, the table maps each entry's key to its list.
proof fn lemma_adjmap_at(entries: Seq<(String, Vec<String>)>, i: int)
    requires
        0 <= i < entries.len(),
        forall|p: int, q: int|
            0 <= p < q < entries.len() ==> (#[trigger] entries[p].0)@ != (
            #[trigger] entries[q].0)@,
    ensures
        adjmap_of(entries).contains_key(entries[i].0@),
        adjmap_of(entries)[entries[i].0@] == entries[i].1.deep_view(),
    decreases entries.len(),
{
    if i == entries.len() - 1 {
        assert(entries.last() == entries[i]);
    } else {
        assert(entries.drop_last()[i] == entries[i]);
        lemma_adjmap_at(entries.drop_last(), i);
        assert(entries.last().0@ != entries[i].0@);
    }
}

/// Replacing one entry's list, under pairwise-distinct keys, updates the
/// table at that entry's key alone.
proof fn lemma_adjmap_update(entries: Seq<(String, Vec<String>)>, i: int, p: (String, Vec<String>))
    requires
        0 <= i < entries.len(),
        p.0@ == entries[i].0@,
        forall|p: int, q: int|
            0 <= p < q < entries.len() ==> (#[trigger] entries[p].0)@ != (
            #[trigger] entries[q].0)@,
    ensures
        adjmap_of(entries.update(i, p)) == adjmap_of(entries).insert(
            entries[i].0@,
            p.1.deep_view(),
        ),
    decreases entries.len(),
{
    let updated = entries.update(i, p);
    if i == entries.len() - 1 {
        assert(updated.drop_last() =~= entries.drop_last());
        assert(updated.last() == p);
        assert(adjmap_of(updated) =~= adjmap_of(entries).insert(entries[i].0@, p.1.deep_view()));
    } else {
        assert(updated.drop_last() =~= entries.drop_last().update(i, p));
        assert(entries.drop_last()[i] == entries[i]);
        lemma_adjmap_update(entries.drop_last(), i, p);
        assert(updated.last() == entries.last());
        assert(entries.last().0@ != entries[i].0@);
        assert(adjmap_of(updated) =~= adjmap_of(entries).insert(entries[i].0@, p.1.deep_view()));
    }
}

/// The index of the entry carrying a key, if any entry does.
fn find_entry(entries: &Vec<(String, Vec<String>)>, name: &str) -> (r: Option<usize>)
    ensures
        match r {
            Some(t) => t < entries@.len() && entries@[t as int].0@ == name@,
            None => forall|j: int| 0 <= j < entries@.len() ==> (#[trigger] entries@[j].0)@ != name@,
        },
{
    let mut k: usize = 0;
    while k < entries.len()
        invariant
            k <= entries@.len(),
            forall|j: int| 0 <= j < k as int ==> (#[trigger] entries@[j].0)@ != name@,
        decreases entries@.len() - k,
    {
        if str_eq(entries[k].0.as_str(), name) {
            return Some(k);
        }
        k = k + 1;
    }
    None
}

impl GraphBuilder {
    /// Compiles the edge list: the ordered list of every edge's source, and
    /// each source's ordered destination list.
    fn build_adjacent_edge(&self) -> (r: (Vec<String>, Vec<(String, Vec<String>)>))
        ensures
            r.0.deep_view() == sources_of(self@.edges),
            adjmap_of(r.1@) == adj_of(self@.edges),
    {
        let ghost evs = edge_views(self.edges@);
        let mut start_edges: Vec<String> = Vec::new();
        let mut adjacent: Vec<(String, Vec<String>)> = Vec::new();
        let mut k: usize = 0;
        proof {
            assert(evs.take(0) =~= Seq::<(Seq<char>, Seq<char>)>::empty());
            assert(start_edges.deep_view() =~= sources_of(evs.take(0)));
        }
        while k < self.edges.len()
            invariant
                k <= self.edges@.len(),
                evs == edge_views(self.edges@),
                evs.len() == self.edges@.len(),
                start_edges@.len() == k as int,
                start_edges.deep_view() == sources_of(evs.take(k as int)),
                adjmap_of(adjacent@) == adj_of(evs.take(k as int)),
                forall|p: int, q: int|
                    0 <= p < q < adjacent@.len() ==> (#[trigger] adjacent@[p].0)@ != (
                    #[trigger] adjacent@[q].0)@,
            decreases self.edges@.len() - k,
        {
            let ghost pre_starts = start_edges.deep_view();
            let ghost pre_map = adjmap_of(adjacent@);
            proof {
                assert(evs.take(k as int + 1).drop_last() =~= evs.take(k as int));
                assert(evs.take(k as int + 1).last() == evs[k as int]);
                assert(evs[k as int] == (self.edges@[k as int].0@, self.edges@[k as int].1@));
            }
            let src = self.edges[k].0.clone();
            let dst = self.edges[k].1.clone();
            let src2 = src.clone();
            let ghost pre_vec = start_edges@;
            start_edges.push(src2);
            proof {
                assert forall|i: int|
                    0 <= i < start_edges.deep_view().len() implies start_edges.deep_view()[i]
                    == sources_of(evs.take(k as int + 1))[i] by {
                    if i < k as int {
                        assert(start_edges@[i] == pre_vec[i]);
                        assert(pre_starts[i] == pre_vec[i].deep_view());
                        assert(pre_starts[i] == sources_of(evs.take(k as int))[i]);
                        assert(sources_of(evs.take(k as int))[i] == evs[i].0);
                        assert(sources_of(evs.take(k as int + 1))[i] == evs[i].0);
                    } else {
                        assert(start_edges@[i] == src2);
                        assert(src2@ == evs[k as int].0);
                    }
                }
                assert(start_edges.deep_view() =~= sources_of(evs.take(k as int + 1)));
            }
            match find_entry(&adjacent, src.as_str()) {
                Some(t) => {
                    proof {
                        lemma_adjmap_at(adjacent@, t as int);
                        lemma_adjmap_contains(adjacent@, src@);
                    }
                    let mut dests = adjacent[t].1.clone();
                    proof {
                        vstd::std_specs::vec::vec_clone_deep_view_proof::<String, std::alloc::Global>(
                            adjacent@[t as int].1,
                            dests,
                        );
                    }
                    dests.push(dst);
                    let entry_name = adjacent[t].0.clone();
                    let ghost newpair = (entry_name, dests);
                    proof {
                        lemma_adjmap_update(adjacent@, t as int, newpair);
                        assert(newpair.1.deep_view() =~= pre_map[src@].push(evs[k as int].1));
                    }
                    adjacent.set(t, (entry_name, dests));
                    proof {
                        assert(adjmap_of(adjacent@) == adj_of(evs.take(k as int + 1)));
                    }
                },
                None => {
                    proof {
                        lemma_adjmap_contains(adjacent@, src@);
                        assert(!pre_map.contains_key(src@));
                    }
                    let mut dests: Vec<String> = Vec::new();
                    dests.push(dst);
                    let ghost newentry = (src, dests);
                    proof {
                        assert(adjacent@.push(newentry).drop_last() =~= adjacent@);
                        assert(newentry.1.deep_view() =~= Seq::<Seq<char>>::empty().push(
                            evs[k as int].1,
                        ));
                    }
                    adjacent.push((src, dests));
                    proof {
                        assert(adjmap_of(adjacent@) == adj_of(evs.take(k as int + 1)));
                    }
                },
            }
            k = k + 1;
        }
        proof {
            assert(evs.take(self.edges@.len() as int) =~= evs);
        }
        (start_edges, adjacent)
    }

    /// Compiles the accumulated tasks and edges into a graph, transferring
    /// ownership of the task table.
    pub fn build(self) -> (g: Graph)
        ensures
            g@.nodes == self@.nodes,
            g@.starts == sources_of(self@.edges),
            g@.adj == adj_of(self@.edges),
    {
        let (start_edges, adjacent_edge_map) = self.build_adjacent_edge();
        Graph { nodes: self.nodes, start_edges, adjacent_edge_map }
    }
}

impl Graph {
    /// The task registered under a name, if any.
    fn get_task(&self, name: &str) -> (r: Option<&Task>)
        ensures
            match r {
                Some(t) => self@.nodes.contains_key(name@) && *t == self@.nodes[name@],
                None => !self@.nodes.contains_key(name@),
            },
    {
        let ghost key = name@;
        let mut k: usize = self.nodes.len();
        proof {
            assert(self.nodes@.take(k as int) =~= self.nodes@);
        }
        while k > 0
            invariant
                k <= self.nodes@.len(),
                task_map_of(self.nodes@).contains_key(key) == task_map_of(
                    self.nodes@.take(k as int),
                ).contains_key(key),
                task_map_of(self.nodes@).contains_key(key) ==> task_map_of(self.nodes@)[key]
                    == task_map_of(self.nodes@.take(k as int))[key],
                key == name@,
            decreases k,
        {
            k = k - 1;
            proof {
                assert(self.nodes@.take(k as int + 1).drop_last() =~= self.nodes@.take(k as int));
                assert(self.nodes@.take(k as int + 1).last() == self.nodes@[k as int]);
            }
            if str_eq(self.nodes[k].0.as_str(), name) {
                return Some(&self.nodes[k].1);
            }
        }
        proof {
            assert(self.nodes@.take(0) =~= Seq::<(String, Task)>::empty());
        }
        None
    }

    /// The ordered destination list of a source name, if any edge starts
    /// there.
    fn destinations(&self, name: &str) -> (r: Option<&Vec<String>>)
        ensures
            match r {
                Some(v) => self@.adj.contains_key(name@) && v.deep_view() == self@.adj[name@],
                None => !self@.adj.contains_key(name@),
            },
    {
        let ghost key = name@;
        let mut k: usize = self.adjacent_edge_map.len();
        proof {
            assert(self.adjacent_edge_map@.take(k as int) =~= self.adjacent_edge_map@);
        }
        while k > 0
            invariant
                k <= self.adjacent_edge_map@.len(),
                adjmap_of(self.adjacent_edge_map@).contains_key(key) == adjmap_of(
                    self.adjacent_edge_map@.take(k as int),
                ).contains_key(key),
                adjmap_of(self.adjacent_edge_map@).contains_key(key) ==> adjmap_of(
                    self.adjacent_edge_map@,
                )[key] == adjmap_of(self.adjacent_edge_map@.take(k as int))[key],
                key == name@,
            decreases k,
        {
            k = k - 1;
            proof {
                assert(self.adjacent_edge_map@.take(k as int + 1).drop_last()
                    =~= self.adjacent_edge_map@.take(k as int));
                assert(self.adjacent_edge_map@.take(k as int + 1).last()
                    == self.adjacent_edge_map@[k as int]);
            }
            if str_eq(self.adjacent_edge_map[k].0.as_str(), name) {
                return Some(&self.adjacent_edge_map[k].1);
            }
        }
        proof {
            assert(self.adjacent_edge_map@.take(0) =~= Seq::<(String, Vec<String>)>::empty());
        }
        None
    }

    /// The names a run executes, in order: each edge source in insertion
    /// order, then that source's destinations, a name joining only where a
    /// task is registered under it and it has not been visited yet.
    pub fn execution_order(&self) -> (order: Vec<String>)
        ensures
            order.deep_view() == execution_plan(self@),
    {
        let ghost g = self@;
        let ghost dom = g.nodes.dom();
        let mut order: Vec<String> = Vec::new();
        let mut i: usize = 0;
        proof {
            assert(g.starts.skip(0) =~= g.starts);
            assert(order.deep_view() =~= Seq::<Seq<char>>::empty());
        }
        while i < self.start_edges.len()
            invariant
                i <= self.start_edges@.len(),
                g == self@,
                dom == g.nodes.dom(),
                g.starts.len() == self.start_edges@.len(),
                visit_starts(order.deep_view(), g.starts.skip(i as int), dom, g.adj)
                    == execution_plan(g),
            decreases self.start_edges@.len() - i,
        {
            proof {
                assert(g.starts.skip(i as int).first() == g.starts[i as int]);
                assert(g.starts.skip(i as int).drop_first() =~= g.starts.skip(i as int + 1));
                assert(g.starts[i as int] == self.start_edges@[i as int]@);
            }
            let name = &self.start_edges[i];
            let ghost o0 = order.deep_view();
            if self.get_task(name.as_str()).is_some() {
                if !contains_name(&order, name.as_str()) {
                    order.push(name.clone());
                    proof {
                        assert(order.deep_view() =~= o0.push(name@));
                    }
                }
            }
            proof {
                assert(order.deep_view() == visit_step(o0, g.starts[i as int], dom));
            }
            let ghost o1 = order.deep_view();
            match self.destinations(name.as_str()) {
                Some(dests) => {
                    let ghost dl = g.adj[g.starts[i as int]];
                    let mut j: usize = 0;
                    proof {
                        assert(dl.skip(0) =~= dl);
                    }
                    while j < dests.len()
                        invariant
                            j <= dests@.len(),
                            g == self@,
                            dom == g.nodes.dom(),
                            dl == dests.deep_view(),
                            dl.len() == dests@.len(),
                            visit_list(order.deep_view(), dl.skip(j as int), dom) == visit_list(
                                o1,
                                dl,
                                dom,
                            ),
                        decreases dests@.len() - j,
                    {
                        proof {
                            assert(dl.skip(j as int).first() == dl[j as int]);
                            assert(dl.skip(j as int).drop_first() =~= dl.skip(j as int + 1));
                            assert(dl[j as int] == dests@[j as int]@);
                        }
                        let dname = &dests[j];
                        let ghost ob = order.deep_view();
                        if self.get_task(dname.as_str()).is_some() {
                            if !contains_name(&order, dname.as_str()) {
                                order.push(dname.clone());
                                proof {
                                    assert(order.deep_view() =~= ob.push(dname@));
                                }
                            }
                        }
                        proof {
                            assert(order.deep_view() == visit_step(ob, dl[j as int], dom));
                        }
                        j = j + 1;
                    }
                    proof {
                        assert(dl.skip(dl.len() as int) =~= Seq::<Seq<char>>::empty());
                        assert(order.deep_view() == visit_list(o1, dl, dom));
                    }
                },
                None => {},
            }
            proof {
                assert(visit_starts(order.deep_view(), g.starts.skip(i as int + 1), dom, g.adj)
                    == execution_plan(g));
            }
            i = i + 1;
        }
        proof {
            assert(g.starts.skip(self.start_edges@.len() as int) =~= Seq::<Seq<char>>::empty());
        }
        order
    }

    /// One run: a fresh blackboard is made, and the tasks of the execution
    /// order run against it, in order, stopping at the first failure.
    ///
    /// What each task does to the blackboard is its own; with nothing to
    /// execute the run succeeds.
    pub fn run(&self) -> (r: Result<(), RllmError>)
        ensures
            execution_plan(self@).len() == 0 ==> r is Ok,
    {
        let order = self.execution_order();
        let shared_state = StateBuilder::new();
        let mut state = shared_state.state();
        let mut i: usize = 0;
        while i < order.len()
            invariant
                i <= order@.len(),
                order.deep_view() == execution_plan(self@),
                order@.len() == execution_plan(self@).len(),
            decreases order@.len() - i,
        {
            match self.get_task(order[i].as_str()) {
                Some(task) => match task.execute(&mut state) {
                    Ok(()) => {},
                    Err(e) => {
                        return Err(e);
                    },
                },
                None => {},
            }
            i = i + 1;
        }
        Ok(())
    }
}

} // verus!
