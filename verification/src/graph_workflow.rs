//! A graph-based workflow of agents. Agents are registered by name; each name
//! owns one node of a `petgraph` `StableGraph`; flows connect agents and the
//! graph is kept free of cycles. The agents themselves (which run
//! asynchronously) stay with the caller: this structure decides.
use vstd::prelude::*;
use std::sync::Arc;
use crate::graph_model::{
    lemma_acyclic_path_distinct,
    EdgeView, FlowView, edges_within, has_cycle, is_path, is_step, lemma_acyclic_no_mutual_reach,
    lemma_acyclic_within,
    lemma_add_edge_cycle, lemma_no_edges_acyclic, lemma_reaches_self, lemma_reaches_step, reaches,
    with_edge,
};
use crate::graph_store::{
    WorkflowGraph, graph_add_edge, graph_add_node, graph_edge_endpoints, graph_edge_list, graph_edges,
    graph_find_edge, graph_new, graph_node_indices, graph_node_weight, graph_nodes, graph_out_edges,
    graph_edge_weight, graph_in_edges, graph_remove_edge, graph_remove_node, graph_scc, out_edge_order,
    scc_components,
};
use crate::text::{cat3, owned, text_eq};
#[allow(unused_imports)]
use crate::text::{has_infix, occurs_at};

verus! {

broadcast use vstd::string::group_string_axioms;

/// A transformation applied to an agent's output before it is handed to the
/// next agent. Implemented by the caller, who states what it computes in
/// `spec_transform`.
pub trait FlowTransform: Send + Sync {
    /// The text the transformation makes of an output.
    spec fn spec_transform(&self, output: Seq<char>) -> Seq<char>;

    fn transform(&self, output: String) -> (r: String)
        ensures
            r@ == self.spec_transform(output@),
    ;
}

/// A condition on an agent's output deciding whether a flow is taken.
/// Implemented by the caller, who states which outputs pass it in
/// `spec_holds`.
pub trait FlowCondition: Send + Sync {
    /// Whether an output passes the condition.
    spec fn spec_holds(&self, output: Seq<char>) -> bool;

    fn holds(&self, output: &str) -> (r: bool)
        ensures
            r == self.spec_holds(output@),
    ;
}

/// Edge weight: the flow of data between two agents.
pub struct Flow {
    /// Optional transformation applied to the output before it is passed on.
    pub transform: Option<Arc<dyn FlowTransform>>,
    /// Optional condition deciding whether this flow is taken.
    pub condition: Option<Arc<dyn FlowCondition>>,
}

impl View for Flow {
    type V = FlowView;

    open spec fn view(&self) -> FlowView {
        FlowView {
            has_transform: self.transform is Some,
            has_condition: self.condition is Some,
            transform_fn: transform_of(self.transform),
            condition_fn: condition_of(self.condition),
        }
    }
}

/// What a flow's transformation makes of an output: the output itself when
/// there is none.
pub open spec fn transform_of(t: Option<Arc<dyn FlowTransform>>) -> spec_fn(Seq<char>) -> Seq<char> {
    |o: Seq<char>|
        match t {
            Some(tr) => tr.spec_transform(o),
            None => o,
        }
}

/// Which outputs pass a flow's condition: all of them when there is none.
pub open spec fn condition_of(c: Option<Arc<dyn FlowCondition>>) -> spec_fn(Seq<char>) -> bool {
    |o: Seq<char>|
        match c {
            Some(cd) => cd.spec_holds(o),
            None => true,
        }
}

impl Flow {
    /// A flow with neither transformation nor condition (`Flow::default()`).
    pub fn plain() -> (r: Flow)
        ensures
            !r@.has_transform,
            !r@.has_condition,
            r@.transform_fn == transform_of(None),
            r@.condition_fn == condition_of(None),
    {
        Flow { transform: None, condition: None }
    }

    pub fn clone_flow(&self) -> (r: Flow)
        ensures
            r@ == self@,
    {
        let transform = match &self.transform {
            Some(t) => Some(Arc::clone(t)),
            None => None,
        };
        let condition = match &self.condition {
            Some(c) => Some(Arc::clone(c)),
            None => None,
        };
        Flow { transform, condition }
    }
}

impl Default for Flow {
    fn default() -> (r: Flow)
        ensures
            !r@.has_transform,
            !r@.has_condition,
            r@.transform_fn == transform_of(None),
            r@.condition_fn == condition_of(None),
    {
        Flow::plain()
    }
}

impl Clone for Flow {
    fn clone(&self) -> (r: Flow)
        ensures
            r@ == self@,
    {
        self.clone_flow()
    }
}

/// Errors of the graph workflow.
#[derive(Clone, Debug)]
pub enum GraphWorkflowError {
    AgentError(String),
    AgentNotFound(String),
    CycleDetected,
    Timeout(String),
    Deadlock,
    Canceled,
}

/// `"Source agent '" + name + "' not found"`.
pub open spec fn source_not_found(name: Seq<char>) -> Seq<char> {
    "Source agent '"@ + name + "' not found"@
}

/// `"Target agent '" + name + "' not found"`.
pub open spec fn target_not_found(name: Seq<char>) -> Seq<char> {
    "Target agent '"@ + name + "' not found"@
}

/// `"Agent '" + name + "' not found"`.
pub open spec fn agent_not_found(name: Seq<char>) -> Seq<char> {
    "Agent '"@ + name + "' not found"@
}

/// `"Start agent '" + name + "' not found"`.
pub open spec fn start_not_found(name: Seq<char>) -> Seq<char> {
    "Start agent '"@ + name + "' not found"@
}

/// `"No connection from '" + from + "' to '" + to + "'"`.
pub open spec fn no_connection(from: Seq<char>, to: Seq<char>) -> Seq<char> {
    "No connection from '"@ + from + "' to '"@ + to + "'"@
}

/// The main graph-based workflow structure.
pub struct DAGWorkflow {
    name: String,
    description: String,
    /// Registered agents, in registration order, with the node each one owns.
    name_to_node: Vec<(String, usize)>,
    /// The workflow graph: agent names on nodes, flows on edges.
    workflow: WorkflowGraph,
}

impl DAGWorkflow {
    pub closed spec fn spec_name(&self) -> Seq<char> {
        self.name@
    }

    pub closed spec fn spec_description(&self) -> Seq<char> {
        self.description@
    }

    /// The workflow graph itself.
    pub closed spec fn graph(&self) -> WorkflowGraph {
        self.workflow
    }

    /// The live nodes of the workflow graph: node index to agent name.
    pub closed spec fn nodes(&self) -> Map<nat, Seq<char>> {
        graph_nodes(self.workflow)
    }

    /// The live edges of the workflow graph.
    pub closed spec fn edges(&self) -> Map<nat, EdgeView> {
        graph_edges(self.workflow)
    }

    /// Registered agent names with their nodes, in registration order.
    pub closed spec fn registry(&self) -> Seq<(Seq<char>, nat)> {
        self.name_to_node@.map_values(|p: (String, usize)| (p.0@, p.1 as nat))
    }

    /// The registered agent names, in registration order.
    pub open spec fn agent_names(&self) -> Seq<Seq<char>> {
        self.registry().map_values(|p: (Seq<char>, nat)| p.0)
    }

    pub open spec fn is_registered(&self, name: Seq<char>) -> bool {
        exists|i: int| 0 <= i < self.registry().len() && #[trigger] self.registry()[i].0 == name
    }

    /// The node owned by a registered agent.
    pub open spec fn node_of(&self, name: Seq<char>) -> nat {
        self.registry()[choose|i: int| 0 <= i < self.registry().len() && #[trigger] self.registry()[i].0 == name].1
    }

    /// The graph and the registry agree: each registered name owns exactly one live
    /// node labelled with that name, every live node is owned, names are unique,
    /// every edge joins live nodes, indices stay below `u32::MAX`, and there is no
    /// cycle.
    pub closed spec fn wf(&self) -> bool {
        let reg = self.registry();
        let nodes = self.nodes();
        let edges = self.edges();
        &&& forall|i: int, j: int| 0 <= i < j < reg.len() ==> reg[i].0 != reg[j].0
        &&& forall|i: int|
            0 <= i < reg.len() ==> nodes.contains_key(#[trigger] reg[i].1) && nodes[reg[i].1] == reg[i].0
        &&& forall|n: nat| nodes.contains_key(n) ==> exists|i: int| 0 <= i < reg.len() && #[trigger] reg[i].1 == n
        &&& nodes.dom().finite()
        &&& edges.dom().finite()
        &&& forall|n: nat| nodes.contains_key(n) ==> n < u32::MAX
        &&& forall|e: nat| #[trigger] edges.contains_key(e) ==> e < u32::MAX
        &&& forall|e: nat|
            #[trigger] edges.contains_key(e) ==> nodes.contains_key(edges[e].source) && nodes.contains_key(
                edges[e].target,
            )
        &&& !has_cycle(edges)
    }

    proof fn lemma_node_of(&self, i: int)
        requires
            self.wf(),
            0 <= i < self.registry().len(),
        ensures
            self.is_registered(self.registry()[i].0),
            self.node_of(self.registry()[i].0) == self.registry()[i].1,
    {
        let name = self.registry()[i].0;
        let j = choose|j: int| 0 <= j < self.registry().len() && #[trigger] self.registry()[j].0 == name;
        if i != j {
            if i < j {
                assert(self.registry()[i].0 != self.registry()[j].0);
            } else {
                assert(self.registry()[j].0 != self.registry()[i].0);
            }
        }
    }

    /// A workflow is always a directed acyclic graph: every operation keeps
    /// `wf`, and no walk of a well-formed workflow returns to where it started.
    pub proof fn lemma_workflow_acyclic(&self)
        requires
            self.wf(),
        ensures
            !has_cycle(self.edges()),
    {
    }

    /// Each execution path from a registered agent starts at that agent,
    /// follows flows and ends at an agent without outgoing flows (given the
    /// edge orders that `get_workflow_structure` reports listed).
    pub proof fn lemma_execution_paths_end_at_leaves(&self, start: Seq<char>)
        requires
            self.wf(),
            self.is_registered(start),
            forall|n: nat| #[trigger] self.nodes().contains_key(n) ==> out_edges_listed(self.graph(), n),
        ensures
            forall|i: int|
                0 <= i < walks_from(self.graph(), self.node_of(start), self.nodes().len()).len() ==> leaf_walk(
                    self.graph(),
                    self.node_of(start),
                    #[trigger] walks_from(self.graph(), self.node_of(start), self.nodes().len())[i],
                ),
    {
        let i = choose|i: int| 0 <= i < self.registry().len() && #[trigger] self.registry()[i].0 == start;
        self.lemma_node_of(i);
        assert(self.nodes().contains_key(self.registry()[i].1));
        lemma_walks_from_are_leaf_walks(self.graph(), self.node_of(start), self.nodes().len());
    }

    /// A walk through a workflow never meets an agent twice.
    pub proof fn lemma_walks_visit_agents_once(&self, p: Seq<nat>)
        requires
            self.wf(),
            is_path(self.edges(), p),
        ensures
            p.no_duplicates(),
    {
        lemma_acyclic_path_distinct(self.edges(), p);
    }

    pub fn new(name: &str, description: &str) -> (r: Self)
        ensures
            r.wf(),
            r.spec_name() == name@,
            r.spec_description() == description@,
            r.registry() == Seq::<(Seq<char>, nat)>::empty(),
            r.nodes() == Map::<nat, Seq<char>>::empty(),
            r.edges() == Map::<nat, EdgeView>::empty(),
    {
        let r = DAGWorkflow {
            name: owned(name),
            description: owned(description),
            name_to_node: Vec::new(),
            workflow: graph_new(),
        };
        assert(r.registry() =~= Seq::<(Seq<char>, nat)>::empty());
        proof {
            lemma_no_edges_acyclic();
        }
        r
    }

    pub fn name(&self) -> (r: &str)
        ensures
            r@ == self.spec_name(),
    {
        self.name.as_str()
    }

    pub fn description(&self) -> (r: &str)
        ensures
            r@ == self.spec_description(),
    {
        self.description.as_str()
    }

    /// Number of registered agents.
    pub fn agent_count(&self) -> (r: usize)
        ensures
            r == self.registry().len(),
    {
        self.name_to_node.len()
    }

    /// Number of live nodes of the workflow graph.
    pub fn node_count(&self) -> (r: usize)
        requires
            self.wf(),
        ensures
            r == self.nodes().len(),
    {
        let ids = graph_node_indices(&self.workflow);
        proof {
            lemma_index_list_len(ids@, self.nodes().dom());
        }
        ids.len()
    }

    /// Number of live edges of the workflow graph.
    pub fn edge_count(&self) -> (r: usize)
        requires
            self.wf(),
        ensures
            r == self.edges().len(),
    {
        let list = graph_edge_list(&self.workflow);
        proof {
            let ids = list@.map_values(|t: (usize, usize, usize)| t.0);
            assert forall|i: int, j: int| 0 <= i < j < ids.len() implies ids[i] < ids[j] by {
                assert(list@[i].0 < list@[j].0);
            }
            assert forall|i: int| 0 <= i < ids.len() implies self.edges().contains_key(#[trigger] ids[i] as nat) by {
                assert(self.edges().contains_key(list@[i].0 as nat));
            }
            assert forall|n: nat| self.edges().contains_key(n) implies exists|i: int| 0 <= i < ids.len() && ids[i] == n by {
                let i = choose|i: int| 0 <= i < list.len() && list@[i].0 == n;
                assert(ids[i] == n);
            }
            lemma_index_list_len(ids, self.edges().dom());
        }
        list.len()
    }

    /// Position of `name` in the registry, if registered.
    fn find_registered(&self, name: &str) -> (r: Option<usize>)
        requires
            self.wf(),
        ensures
            r is Some <==> self.is_registered(name@),
            r matches Some(i) ==> i < self.registry().len() && self.registry()[i as int].0 == name@
                && self.node_of(name@) == self.registry()[i as int].1,
    {
        let mut i: usize = 0;
        while i < self.name_to_node.len()
            invariant
                self.wf(),
                i <= self.name_to_node.len(),
                forall|j: int| 0 <= j < i ==> self.registry()[j].0 != name@,
            decreases self.name_to_node.len() - i,
        {
            if text_eq(self.name_to_node[i].0.as_str(), name) {
                proof {
                    self.lemma_node_of(i as int);
                }
                return Some(i);
            }
            i = i + 1;
        }
        None
    }

    /// Whether an agent with this name is registered.
    pub fn contains_agent(&self, name: &str) -> (r: bool)
        requires
            self.wf(),
        ensures
            r == self.is_registered(name@),
    {
        self.find_registered(name).is_some()
    }

    /// Register an agent by name; a name that is already registered keeps its node.
    pub fn register_agent(&mut self, agent_name: &str)
        requires
            old(self).wf(),
            old(self).nodes().len() < u32::MAX,
        ensures
            final(self).wf(),
            final(self).spec_name() == old(self).spec_name(),
            final(self).spec_description() == old(self).spec_description(),
            final(self).edges() == old(self).edges(),
            old(self).is_registered(agent_name@) ==> final(self).registry() == old(self).registry()
                && final(self).nodes() == old(self).nodes(),
            !old(self).is_registered(agent_name@) ==> exists|n: nat|
                #![trigger old(self).nodes().insert(n, agent_name@)]
                !old(self).nodes().contains_key(n) && final(self).nodes() == old(self).nodes().insert(
                    n,
                    agent_name@,
                ) && final(self).registry() == old(self).registry().push((agent_name@, n)),
    {
        if self.find_registered(agent_name).is_some() {
            return;
        }
        let ghost old_reg = self.registry();
        let ghost old_nodes = self.nodes();
        let idx = graph_add_node(&mut self.workflow, owned(agent_name));
        self.name_to_node.push((owned(agent_name), idx));
        proof {
            let reg = self.registry();
            assert(reg =~= old_reg.push((agent_name@, idx as nat)));
            assert forall|i: int, j: int| 0 <= i < j < reg.len() implies reg[i].0 != reg[j].0 by {
                if j == reg.len() - 1 {
                    assert(old_reg[i].0 != agent_name@);
                } else {
                    assert(reg[i] == old_reg[i] && reg[j] == old_reg[j]);
                }
            }
            assert forall|i: int| 0 <= i < reg.len() implies self.nodes().contains_key(#[trigger] reg[i].1)
                && self.nodes()[reg[i].1] == reg[i].0 by {
                if i < reg.len() - 1 {
                    assert(reg[i] == old_reg[i]);
                    assert(old_nodes.contains_key(old_reg[i].1));
                }
            }
            assert forall|n: nat| self.nodes().contains_key(n) implies exists|i: int|
                0 <= i < reg.len() && #[trigger] reg[i].1 == n by {
                if n == idx as nat {
                    assert(reg[reg.len() - 1].1 == n);
                } else {
                    assert(old_nodes.contains_key(n));
                    let i = choose|i: int| 0 <= i < old_reg.len() && #[trigger] old_reg[i].1 == n;
                    assert(reg[i] == old_reg[i]);
                }
            }
        }
    }

    /// Add a flow from agent `from` to agent `to`. Fails if either agent is not
    /// registered, or if the flow would close a cycle (then the graph is left
    /// as it was).
    pub fn connect_agents(&mut self, from: &str, to: &str, flow: Flow) -> (r: Result<(), GraphWorkflowError>)
        requires
            old(self).wf(),
            old(self).edges().len() < u32::MAX,
        ensures
            final(self).wf(),
            final(self).registry() == old(self).registry(),
            final(self).nodes() == old(self).nodes(),
            final(self).spec_name() == old(self).spec_name(),
            final(self).spec_description() == old(self).spec_description(),
            !old(self).is_registered(from@) ==> (r matches Err(GraphWorkflowError::AgentNotFound(m))
                && m@ == source_not_found(from@)),
            old(self).is_registered(from@) && !old(self).is_registered(to@) ==> (r matches Err(
                GraphWorkflowError::AgentNotFound(m),
            ) && m@ == target_not_found(to@)),
            old(self).is_registered(from@) && old(self).is_registered(to@) && reaches(
                old(self).edges(),
                old(self).node_of(to@),
                old(self).node_of(from@),
            ) ==> r matches Err(GraphWorkflowError::CycleDetected),
            old(self).is_registered(from@) && old(self).is_registered(to@) && !reaches(
                old(self).edges(),
                old(self).node_of(to@),
                old(self).node_of(from@),
            ) ==> r is Ok,
            r is Err ==> final(self).edges() == old(self).edges(),
            r is Ok ==> {
                &&& old(self).is_registered(from@)
                &&& old(self).is_registered(to@)
                &&& !reaches(old(self).edges(), old(self).node_of(to@), old(self).node_of(from@))
                &&& exists|e: nat|
                    !old(self).edges().contains_key(e) && final(self).edges() == with_edge(
                        old(self).edges(),
                        e,
                        old(self).node_of(from@),
                        old(self).node_of(to@),
                        flow@,
                    )
            },
    {
        let fi = match self.find_registered(from) {
            Some(i) => i,
            None => {
                return Err(GraphWorkflowError::AgentNotFound(cat3("Source agent '", from, "' not found")));
            },
        };
        let ti = match self.find_registered(to) {
            Some(i) => i,
            None => {
                return Err(GraphWorkflowError::AgentNotFound(cat3("Target agent '", to, "' not found")));
            },
        };
        let from_idx = self.name_to_node[fi].1;
        let to_idx = self.name_to_node[ti].1;
        let ghost old_edges = self.edges();
        let ghost fv = flow@;
        let before = graph_edge_list(&self.workflow);
        proof {
            assert(self.nodes().contains_key(from_idx as nat));
            assert(self.nodes().contains_key(to_idx as nat));
        }
        let edge_idx = graph_add_edge(&mut self.workflow, from_idx, to_idx, flow);
        let reachable = reachable_from(&before, to_idx, Ghost(old_edges), Ghost(self.nodes().dom()));
        let cycle = vec_has(&reachable, from_idx);
        proof {
            lemma_add_edge_cycle(old_edges, edge_idx as nat, from_idx as nat, to_idx as nat, fv);
        }
        if cycle {
            let _ = graph_remove_edge(&mut self.workflow, edge_idx);
            proof {
                assert(self.edges() =~= old_edges);
            }
            return Err(GraphWorkflowError::CycleDetected);
        }
        proof {
            assert(!old_edges.contains_key(edge_idx as nat));
        }
        Ok(())
    }

    /// Remove the flow from `from` to `to` (one of them, if there are several).
    pub fn disconnect_agents(&mut self, from: &str, to: &str) -> (r: Result<(), GraphWorkflowError>)
        requires
            old(self).wf(),
        ensures
            final(self).wf(),
            final(self).registry() == old(self).registry(),
            final(self).nodes() == old(self).nodes(),
            final(self).spec_name() == old(self).spec_name(),
            final(self).spec_description() == old(self).spec_description(),
            !old(self).is_registered(from@) ==> (r matches Err(GraphWorkflowError::AgentNotFound(m))
                && m@ == source_not_found(from@)),
            old(self).is_registered(from@) && !old(self).is_registered(to@) ==> (r matches Err(
                GraphWorkflowError::AgentNotFound(m),
            ) && m@ == target_not_found(to@)),
            old(self).is_registered(from@) && old(self).is_registered(to@) && !is_step(
                old(self).edges(),
                old(self).node_of(from@),
                old(self).node_of(to@),
            ) ==> (r matches Err(GraphWorkflowError::AgentNotFound(m)) && m@ == no_connection(from@, to@)),
            old(self).is_registered(from@) && old(self).is_registered(to@) && is_step(
                old(self).edges(),
                old(self).node_of(from@),
                old(self).node_of(to@),
            ) ==> r is Ok,
            r is Err ==> final(self).edges() == old(self).edges(),
            r is Ok ==> {
                &&& old(self).is_registered(from@)
                &&& old(self).is_registered(to@)
                &&& exists|e: nat|
                    #![trigger old(self).edges().remove(e)]
                    old(self).edges().contains_key(e) && old(self).edges()[e].source == old(self).node_of(
                        from@,
                    ) && old(self).edges()[e].target == old(self).node_of(to@) && final(self).edges()
                        == old(self).edges().remove(e)
            },
    {
        let fi = match self.find_registered(from) {
            Some(i) => i,
            None => {
                return Err(GraphWorkflowError::AgentNotFound(cat3("Source agent '", from, "' not found")));
            },
        };
        let ti = match self.find_registered(to) {
            Some(i) => i,
            None => {
                return Err(GraphWorkflowError::AgentNotFound(cat3("Target agent '", to, "' not found")));
            },
        };
        let from_idx = self.name_to_node[fi].1;
        let to_idx = self.name_to_node[ti].1;
        proof {
            assert(self.nodes().contains_key(from_idx as nat));
            assert(self.nodes().contains_key(to_idx as nat));
        }
        let ghost old_edges = self.edges();
        match graph_find_edge(&self.workflow, from_idx, to_idx) {
            Some(e) => {
                let _ = graph_remove_edge(&mut self.workflow, e);
                proof {
                    assert(edges_within(self.edges(), old_edges));
                    lemma_acyclic_within(self.edges(), old_edges);
                    assert(old_edges.remove(e as nat) == self.edges());
                }
                Ok(())
            },
            None => {
                let mut m = cat3("No connection from '", from, "' to '");
                m.append(to);
                m.append("'");
                Err(GraphWorkflowError::AgentNotFound(m))
            },
        }
    }

    /// Remove an agent, its node and every flow into or out of it.
    pub fn remove_agent(&mut self, name: &str) -> (r: Result<(), GraphWorkflowError>)
        requires
            old(self).wf(),
        ensures
            final(self).wf(),
            final(self).spec_name() == old(self).spec_name(),
            final(self).spec_description() == old(self).spec_description(),
            !old(self).is_registered(name@) ==> (r matches Err(GraphWorkflowError::AgentNotFound(m))
                && m@ == agent_not_found(name@) && final(self).registry() == old(self).registry()
                && final(self).nodes() == old(self).nodes() && final(self).edges() == old(self).edges()),
            old(self).is_registered(name@) ==> {
                let n = old(self).node_of(name@);
                &&& r is Ok
                &&& final(self).nodes() == old(self).nodes().remove(n)
                &&& !final(self).is_registered(name@)
                &&& final(self).agent_names() == old(self).agent_names().filter(other_than(name@))
                &&& final(self).edges() == old(self).edges().restrict(
                    Set::new(
                        |e: nat|
                            old(self).edges().contains_key(e) && old(self).edges()[e].source != n
                                && old(self).edges()[e].target != n,
                    ),
                )
            },
    {
        let i = match self.find_registered(name) {
            Some(i) => i,
            None => {
                return Err(GraphWorkflowError::AgentNotFound(cat3("Agent '", name, "' not found")));
            },
        };
        let ghost old_reg = self.registry();
        let ghost old_nodes = self.nodes();
        let ghost old_edges = self.edges();
        let ghost old_names = self.agent_names();
        proof {
            self.lemma_node_of(i as int);
        }
        let entry = self.name_to_node.remove(i);
        let idx = entry.1;
        proof {
            assert(old_nodes.contains_key(idx as nat));
            assert(idx as nat == old_reg[i as int].1);
        }
        let _ = graph_remove_node(&mut self.workflow, idx);
        proof {
            let reg = self.registry();
            assert(reg =~= old_reg.remove(i as int));
            assert forall|a: int, b: int| 0 <= a < b < reg.len() implies reg[a].0 != reg[b].0 by {
                let oa = if a < i { a } else { a + 1 };
                let ob = if b < i { b } else { b + 1 };
                assert(reg[a] == old_reg[oa] && reg[b] == old_reg[ob]);
            }
            assert forall|a: int| 0 <= a < reg.len() implies self.nodes().contains_key(#[trigger] reg[a].1)
                && self.nodes()[reg[a].1] == reg[a].0 by {
                let oa = if a < i { a } else { a + 1 };
                assert(reg[a] == old_reg[oa]);
                assert(old_nodes.contains_key(old_reg[oa].1));
                if old_reg[oa].1 == idx as nat {
                    assert(old_reg[oa].0 == old_nodes[idx as nat]);
                    assert(old_reg[i as int].0 == old_nodes[idx as nat]);
                    if oa < i {
                        assert(old_reg[oa].0 != old_reg[i as int].0);
                    } else {
                        assert(old_reg[i as int].0 != old_reg[oa].0);
                    }
                }
            }
            assert forall|n: nat| self.nodes().contains_key(n) implies exists|a: int|
                0 <= a < reg.len() && #[trigger] reg[a].1 == n by {
                let oa = choose|oa: int| 0 <= oa < old_reg.len() && #[trigger] old_reg[oa].1 == n;
                assert(oa != i);
                let a = if oa < i { oa } else { oa - 1 };
                assert(reg[a] == old_reg[oa]);
            }
            assert(edges_within(self.edges(), old_edges));
            lemma_acyclic_within(self.edges(), old_edges);
            assert(self.edges().dom().subset_of(old_edges.dom()));
            vstd::set_lib::lemma_set_subset_finite(old_edges.dom(), self.edges().dom());
            assert forall|e: nat| #[trigger] self.edges().contains_key(e) implies self.nodes().contains_key(
                self.edges()[e].source,
            ) && self.nodes().contains_key(self.edges()[e].target) by {
                assert(old_edges.contains_key(e));
                assert(self.edges()[e] == old_edges[e]);
            }
            assert forall|a: int, b: int| 0 <= a < b < old_names.len() implies old_names[a] != old_names[b] by {
                assert(old_names[a] == old_reg[a].0 && old_names[b] == old_reg[b].0);
            }
            assert(!self.is_registered(name@)) by {
                if self.is_registered(name@) {
                    let a = choose|a: int| 0 <= a < reg.len() && #[trigger] reg[a].0 == name@;
                    let oa = if a < i { a } else { a + 1 };
                    assert(reg[a] == old_reg[oa]);
                    if oa < i {
                        assert(old_reg[oa].0 != old_reg[i as int].0);
                    } else {
                        assert(old_reg[i as int].0 != old_reg[oa].0);
                    }
                }
            }
            lemma_remove_filter(old_names, i as int, name@);
            assert(self.agent_names() =~= old_names.remove(i as int));
            assert(old_names[i as int] == name@);
            assert(self.agent_names() == old_names.filter(other_than(name@)));
            assert(old(self).node_of(name@) == idx as nat);
            assert(self.nodes() == old_nodes.remove(idx as nat));
        }
        Ok(())
    }
}

/// The views of a list of strings.
pub open spec fn strs(v: Seq<String>) -> Seq<Seq<char>> {
    v.map_values(|x: String| x@)
}

/// The views of a list of lists of strings.
pub open spec fn str_lists(v: Seq<Vec<String>>) -> Seq<Seq<Seq<char>>> {
    v.map_values(|p: Vec<String>| strs(p@))
}

/// The agent names along a walk.
pub open spec fn names_on(nodes: Map<nat, Seq<char>>, w: Seq<nat>) -> Seq<Seq<char>> {
    w.map_values(|n: nat| nodes[n])
}

/// Targets of the edges leaving `a`, in the order the graph keeps them.
pub open spec fn out_targets(g: WorkflowGraph, a: nat) -> Seq<nat> {
    out_edge_order(g, a).map_values(|e: nat| graph_edges(g)[e].target)
}

/// The walks from `a` to a node without outgoing edges, in depth-first order
/// following the graph's edge order, of at most `fuel` nodes.
pub open spec fn walks_from(g: WorkflowGraph, a: nat, fuel: nat) -> Seq<Seq<nat>>
    decreases fuel, 0int,
{
    if fuel == 0 {
        Seq::empty()
    } else if out_targets(g, a).len() == 0 {
        seq![seq![a]]
    } else {
        walks_over(g, out_targets(g, a), (fuel - 1) as nat).map_values(|w: Seq<nat>| seq![a] + w)
    }
}

/// The walks from each of `ns` in turn.
pub open spec fn walks_over(g: WorkflowGraph, ns: Seq<nat>, fuel: nat) -> Seq<Seq<nat>>
    decreases fuel, ns.len() + 1,
{
    if ns.len() == 0 {
        Seq::empty()
    } else {
        walks_over(g, ns.drop_last(), fuel) + walks_from(g, ns.last(), fuel)
    }
}

/// `w` is a walk from `a` along edges to a node without outgoing edges.
pub open spec fn leaf_walk(g: WorkflowGraph, a: nat, w: Seq<nat>) -> bool {
    &&& w.len() >= 1
    &&& w[0] == a
    &&& is_path(graph_edges(g), w)
    &&& out_targets(g, w.last()).len() == 0
}

/// Every outgoing-edge order of a live node lists that node's edges, and
/// every edge ends at a live node.
pub open spec fn orders_listed(g: WorkflowGraph) -> bool {
    &&& forall|n: nat| #[trigger] graph_nodes(g).contains_key(n) ==> out_edges_listed(g, n)
    &&& forall|e: nat|
        #[trigger] graph_edges(g).contains_key(e) ==> graph_nodes(g).contains_key(graph_edges(g)[e].target)
}

/// Each execution path from a live node `a` starts at `a`, follows edges and
/// ends at an agent without outgoing flows.
pub proof fn lemma_walks_from_are_leaf_walks(g: WorkflowGraph, a: nat, fuel: nat)
    requires
        orders_listed(g),
        graph_nodes(g).contains_key(a),
    ensures
        forall|i: int| 0 <= i < walks_from(g, a, fuel).len() ==> leaf_walk(g, a, #[trigger] walks_from(g, a, fuel)[i]),
    decreases fuel, 0int,
{
    if fuel > 0 && out_targets(g, a).len() > 0 {
        let ns = out_targets(g, a);
        assert(out_edges_listed(g, a));
        assert forall|k: int| 0 <= k < ns.len() implies graph_nodes(g).contains_key(#[trigger] ns[k])
            && is_step(graph_edges(g), a, ns[k]) by {
            let e = out_edge_order(g, a)[k];
            assert(graph_edges(g).contains_key(e) && graph_edges(g)[e].source == a);
            assert(ns[k] == graph_edges(g)[e].target);
        }
        lemma_walks_over_are_leaf_walks(g, a, ns, (fuel - 1) as nat);
        let ws = walks_over(g, ns, (fuel - 1) as nat);
        assert forall|i: int| 0 <= i < walks_from(g, a, fuel).len() implies leaf_walk(
            g,
            a,
            #[trigger] walks_from(g, a, fuel)[i],
        ) by {
            let w = ws[i];
            let v = seq![a] + w;
            assert(walks_from(g, a, fuel)[i] == v);
            let k = choose|k: int| 0 <= k < ns.len() && leaf_walk(g, ns[k], w);
            assert(is_step(graph_edges(g), a, ns[k]));
            assert forall|j: int| 0 <= j < v.len() - 1 implies #[trigger] is_step(graph_edges(g), v[j], v[j + 1]) by {
                if j > 0 {
                    let jj = j - 1;
                    assert(is_path(graph_edges(g), w));
                    assert(0 <= jj < w.len() - 1);
                    assert(is_step(graph_edges(g), w[jj], w[jj + 1]));
                    assert(v[j] == w[jj] && v[j + 1] == w[jj + 1]);
                }
            }
            assert(v.last() == w.last());
        }
    }
}

/// Each walk over `ns` is a leaf walk from one of `ns` (see
/// `lemma_walks_from_are_leaf_walks`).
proof fn lemma_walks_over_are_leaf_walks(g: WorkflowGraph, a: nat, ns: Seq<nat>, fuel: nat)
    requires
        orders_listed(g),
        forall|k: int| 0 <= k < ns.len() ==> graph_nodes(g).contains_key(#[trigger] ns[k]),
    ensures
        forall|i: int|
            0 <= i < walks_over(g, ns, fuel).len() ==> exists|k: int|
                0 <= k < ns.len() && leaf_walk(g, ns[k], #[trigger] walks_over(g, ns, fuel)[i]),
    decreases fuel, ns.len() + 1,
{
    if ns.len() > 0 {
        let init = ns.drop_last();
        lemma_walks_over_are_leaf_walks(g, a, init, fuel);
        lemma_walks_from_are_leaf_walks(g, ns.last(), fuel);
        let left = walks_over(g, init, fuel);
        let right = walks_from(g, ns.last(), fuel);
        assert forall|i: int| 0 <= i < walks_over(g, ns, fuel).len() implies exists|k: int|
            0 <= k < ns.len() && leaf_walk(g, ns[k], #[trigger] walks_over(g, ns, fuel)[i]) by {
            if i < left.len() {
                assert(walks_over(g, ns, fuel)[i] == left[i]);
                let k = choose|k: int| 0 <= k < init.len() && leaf_walk(g, init[k], left[i]);
                assert(ns[k] == init[k]);
            } else {
                assert(walks_over(g, ns, fuel)[i] == right[i - left.len()]);
                assert(leaf_walk(g, ns.last(), right[i - left.len()]));
                assert(ns[ns.len() - 1] == ns.last());
            }
        }
    }
}

/// `"transform"` on an edge that transforms its data, nothing otherwise.
pub open spec fn edge_label(f: FlowView) -> Option<Seq<char>> {
    if f.has_transform {
        Some("transform"@)
    } else {
        None
    }
}

/// The connections leaving node `a`: target agent and label, in edge order.
pub open spec fn connections(g: WorkflowGraph, a: nat) -> Seq<(Seq<char>, Option<Seq<char>>)> {
    out_edge_order(g, a).map_values(
        |e: nat| (graph_nodes(g)[graph_edges(g)[e].target], edge_label(graph_edges(g)[e].flow)),
    )
}

/// A connection of the workflow structure names the flow's target agent and
/// is labelled `"transform"` exactly when its flow has a transformation;
/// a condition alone gives no label.
pub proof fn lemma_connection_labels(g: WorkflowGraph, a: nat, k: int)
    requires
        0 <= k < out_edge_order(g, a).len(),
    ensures
        ({
            let e = out_edge_order(g, a)[k];
            &&& connections(g, a)[k].0 == graph_nodes(g)[graph_edges(g)[e].target]
            &&& connections(g, a)[k].1 is Some <==> graph_edges(g)[e].flow.has_transform
            &&& connections(g, a)[k].1 matches Some(l) ==> l == "transform"@
        }),
{
}

/// An agent of the graph with its outgoing connections.
pub open spec fn structure_of(g: WorkflowGraph, n: nat) -> (Seq<char>, Seq<(Seq<char>, Option<Seq<char>>)>) {
    (graph_nodes(g)[n], connections(g, n))
}

/// The view of one entry of the workflow structure.
pub open spec fn structure_entry(x: (String, Vec<(String, Option<String>)>)) -> (
    Seq<char>,
    Seq<(Seq<char>, Option<Seq<char>>)>,
) {
    (x.0@, x.1@.map_values(|c: (String, Option<String>)| conn_view(c)))
}

/// The view of one connection.
pub open spec fn conn_view(c: (String, Option<String>)) -> (Seq<char>, Option<Seq<char>>) {
    (c.0@, opt_view(c.1))
}

pub open spec fn opt_view(o: Option<String>) -> Option<Seq<char>> {
    match o {
        Some(s) => Some(s@),
        None => None,
    }
}

/// `x` strictly increases and holds exactly the members of `dom`.
pub open spec fn sorted_keys(x: Seq<nat>, dom: Set<nat>) -> bool {
    &&& forall|i: int, j: int| 0 <= i < j < x.len() ==> x[i] < x[j]
    &&& forall|i: int| 0 <= i < x.len() ==> dom.contains(#[trigger] x[i])
    &&& forall|n: nat| dom.contains(n) ==> exists|i: int| 0 <= i < x.len() && x[i] == n
}

/// `    "name" [label="name"];` and a line break.
pub open spec fn dot_node_line(name: Seq<char>) -> Seq<char> {
    "    \""@ + name + "\" [label=\""@ + name + "\"];\n"@
}

/// `    "from" -> "to";` and a line break.
pub open spec fn dot_edge_line(from: Seq<char>, to: Seq<char>) -> Seq<char> {
    "    \""@ + from + "\" -> \""@ + to + "\";\n"@
}

pub open spec fn dot_node_lines(nodes: Map<nat, Seq<char>>, ids: Seq<nat>) -> Seq<char>
    decreases ids.len(),
{
    if ids.len() == 0 {
        Seq::empty()
    } else {
        dot_node_lines(nodes, ids.drop_last()) + dot_node_line(nodes[ids.last()])
    }
}

pub open spec fn dot_edge_lines(nodes: Map<nat, Seq<char>>, edges: Map<nat, EdgeView>, ids: Seq<nat>) -> Seq<
    char,
>
    decreases ids.len(),
{
    if ids.len() == 0 {
        Seq::empty()
    } else {
        dot_edge_lines(nodes, edges, ids.drop_last()) + dot_edge_line(
            nodes[edges[ids.last()].source],
            nodes[edges[ids.last()].target],
        )
    }
}

/// The DOT text of a graph whose nodes and edges are listed in `node_ids` and
/// `edge_ids`.
pub open spec fn dot_text(
    nodes: Map<nat, Seq<char>>,
    edges: Map<nat, EdgeView>,
    node_ids: Seq<nat>,
    edge_ids: Seq<nat>,
) -> Seq<char> {
    "digraph {\n"@ + dot_node_lines(nodes, node_ids) + dot_edge_lines(nodes, edges, edge_ids) + "}\n"@
}

proof fn lemma_node_line_at(nodes: Map<nat, Seq<char>>, ids: Seq<nat>, i: int) -> (k: int)
    requires
        0 <= i < ids.len(),
    ensures
        occurs_at(dot_node_lines(nodes, ids), dot_node_line(nodes[ids[i]]), k),
    decreases ids.len(),
{
    let w = dot_node_lines(nodes, ids);
    let p = dot_node_lines(nodes, ids.drop_last());
    let line = dot_node_line(nodes[ids[i]]);
    if i == ids.len() - 1 {
        assert(w.subrange(p.len() as int, (p.len() + line.len()) as int) =~= line);
        p.len() as int
    } else {
        let k = lemma_node_line_at(nodes, ids.drop_last(), i);
        assert(ids.drop_last()[i] == ids[i]);
        assert(w.subrange(k, k + line.len()) =~= p.subrange(k, k + line.len()));
        k
    }
}

proof fn lemma_edge_line_at(nodes: Map<nat, Seq<char>>, edges: Map<nat, EdgeView>, ids: Seq<nat>, i: int) -> (k: int)
    requires
        0 <= i < ids.len(),
    ensures
        occurs_at(
            dot_edge_lines(nodes, edges, ids),
            dot_edge_line(nodes[edges[ids[i]].source], nodes[edges[ids[i]].target]),
            k,
        ),
    decreases ids.len(),
{
    let w = dot_edge_lines(nodes, edges, ids);
    let p = dot_edge_lines(nodes, edges, ids.drop_last());
    let line = dot_edge_line(nodes[edges[ids[i]].source], nodes[edges[ids[i]].target]);
    if i == ids.len() - 1 {
        assert(w.subrange(p.len() as int, (p.len() + line.len()) as int) =~= line);
        p.len() as int
    } else {
        let k = lemma_edge_line_at(nodes, edges, ids.drop_last(), i);
        assert(ids.drop_last()[i] == ids[i]);
        assert(w.subrange(k, k + line.len()) =~= p.subrange(k, k + line.len()));
        k
    }
}

/// The DOT text lists everything: it opens with `digraph {`, closes with
/// `}`, and holds the line of every agent listed and of every flow listed.
pub proof fn lemma_dot_lists_everything(
    nodes: Map<nat, Seq<char>>,
    edges: Map<nat, EdgeView>,
    node_ids: Seq<nat>,
    edge_ids: Seq<nat>,
)
    ensures
        ({
            let t = dot_text(nodes, edges, node_ids, edge_ids);
            &&& occurs_at(t, "digraph {\n"@, 0)
            &&& occurs_at(t, "}\n"@, t.len() - "}\n"@.len())
            &&& forall|i: int| 0 <= i < node_ids.len() ==> has_infix(t, dot_node_line(nodes[#[trigger] node_ids[i]]))
            &&& forall|i: int|
                0 <= i < edge_ids.len() ==> has_infix(
                    t,
                    dot_edge_line(nodes[edges[#[trigger] edge_ids[i]].source], nodes[edges[edge_ids[i]].target]),
                )
        }),
{
    let head = "digraph {\n"@;
    let tail = "}\n"@;
    let nl = dot_node_lines(nodes, node_ids);
    let el = dot_edge_lines(nodes, edges, edge_ids);
    let t = dot_text(nodes, edges, node_ids, edge_ids);
    assert(t == head + nl + el + tail);
    assert(t.subrange(0, head.len() as int) =~= head);
    assert(t.subrange(t.len() - tail.len(), t.len() as int) =~= tail);
    assert forall|i: int| 0 <= i < node_ids.len() implies has_infix(t, dot_node_line(nodes[#[trigger] node_ids[i]])) by {
        let line = dot_node_line(nodes[node_ids[i]]);
        let k = lemma_node_line_at(nodes, node_ids, i);
        let at = head.len() + k;
        assert(t.subrange(at, at + line.len()) =~= nl.subrange(k, k + line.len()));
        assert(occurs_at(t, line, at));
    }
    assert forall|i: int| 0 <= i < edge_ids.len() implies has_infix(
        t,
        dot_edge_line(nodes[edges[#[trigger] edge_ids[i]].source], nodes[edges[edge_ids[i]].target]),
    ) by {
        let line = dot_edge_line(nodes[edges[edge_ids[i]].source], nodes[edges[edge_ids[i]].target]);
        let k = lemma_edge_line_at(nodes, edges, edge_ids, i);
        let at = head.len() + nl.len() + k;
        assert(t.subrange(at, at + line.len()) =~= el.subrange(k, k + line.len()));
        assert(occurs_at(t, line, at));
    }
}

/// The components of size greater than one, as agent names.
pub open spec fn cyclic_components(g: WorkflowGraph) -> Seq<Seq<Seq<char>>> {
    scc_components(g).filter(|c: Seq<nat>| c.len() > 1).map_values(|c: Seq<nat>| names_on(graph_nodes(g), c))
}

impl DAGWorkflow {
    /// The depth-first enumeration behind `find_execution_paths`: appends, for
    /// every walk from `node` to a leaf, the current path followed by the walk's
    /// agent names.
    fn dfs_paths(&self, node: usize, current_path: &mut Vec<String>, all_paths: &mut Vec<Vec<String>>, fuel: usize)
        requires
            self.wf(),
            self.nodes().contains_key(node as nat),
        ensures
            strs(final(current_path)@) == strs(old(current_path)@),
            str_lists(final(all_paths)@) == str_lists(old(all_paths)@) + walks_from(
                self.workflow,
                node as nat,
                fuel as nat,
            ).map_values(|w: Seq<nat>| strs(old(current_path)@) + names_on(self.nodes(), w)),
        decreases fuel,
    {
        let ghost g = self.workflow;
        let ghost prefix = strs(current_path@);
        let ghost start_paths = str_lists(all_paths@);
        if fuel == 0 {
            assert(str_lists(all_paths@) =~= start_paths + Seq::<Seq<Seq<char>>>::empty());
            return;
        }
        let name = match graph_node_weight(&self.workflow, node) {
            Some(n) => n,
            None => {
                return;
            },
        };
        current_path.push(name);
        let ghost here = strs(current_path@);
        assert(here =~= prefix.push(self.nodes()[node as nat]));
        let out = graph_out_edges(&self.workflow, node);
        proof {
            assert(out@.map_values(|e: usize| e as nat).len() == out.len());
        }
        if out.len() == 0 {
            let snapshot = current_path.clone();
            proof {
                assert(snapshot@ =~= current_path@);
            }
            all_paths.push(snapshot);
            proof {
                assert(out_targets(g, node as nat).len() == 0);
                assert(strs(snapshot@) == here);
                assert(str_lists(all_paths@) =~= start_paths.push(here));
                let w = seq![node as nat];
                assert(names_on(self.nodes(), w) =~= seq![self.nodes()[node as nat]]);
                assert(walks_from(g, node as nat, fuel as nat) == seq![w]);
                assert(prefix + names_on(self.nodes(), w) =~= here);
                assert(seq![w].map_values(|w: Seq<nat>| prefix + names_on(self.nodes(), w)) =~= seq![here]);
                assert(str_lists(all_paths@) =~= start_paths + walks_from(g, node as nat, fuel as nat).map_values(
                    |w: Seq<nat>| prefix + names_on(self.nodes(), w),
                ));
            }
        } else {
            let ghost targets = out_targets(g, node as nat);
            let mut k: usize = 0;
            while k < out.len()
                invariant
                    self.wf(),
                    g == self.workflow,
                    k <= out.len(),
                    out@.map_values(|e: usize| e as nat) == out_edge_order(g, node as nat),
                    forall|i: int|
                        0 <= i < out.len() ==> graph_edges(g).contains_key(#[trigger] out[i] as nat)
                            && graph_edges(g)[out[i] as nat].source == node as nat,
                    targets == out_targets(g, node as nat),
                    targets.len() == out.len(),
                    fuel > 0,
                    strs(current_path@) == here,
                    str_lists(all_paths@) == start_paths + walks_over(g, targets.take(k as int), (fuel - 1) as nat).map_values(
                        |w: Seq<nat>| here + names_on(self.nodes(), w),
                    ),
                decreases out.len() - k,
            {
                proof {
                    assert(out@.map_values(|e: usize| e as nat)[k as int] == out[k as int] as nat);
                    assert(self.edges().contains_key(out[k as int] as nat));
                }
                let (_s, t) = match graph_edge_endpoints(&self.workflow, out[k]) {
                    Some(p) => p,
                    None => {
                        return;
                    },
                };
                proof {
                    assert(targets[k as int] == t as nat);
                    assert(self.nodes().contains_key(t as nat));
                }
                let ghost before = str_lists(all_paths@);
                self.dfs_paths(t, current_path, all_paths, fuel - 1);
                proof {
                    let f = |w: Seq<nat>| here + names_on(self.nodes(), w);
                    let ts = targets.take(k as int + 1);
                    assert(ts.drop_last() =~= targets.take(k as int));
                    assert(ts.last() == t as nat);
                    assert(walks_over(g, ts, (fuel - 1) as nat) == walks_over(g, targets.take(k as int), (fuel - 1) as nat)
                        + walks_from(g, t as nat, (fuel - 1) as nat));
                    let a = walks_over(g, targets.take(k as int), (fuel - 1) as nat);
                    let b = walks_from(g, t as nat, (fuel - 1) as nat);
                    assert((a + b).map_values(f) =~= a.map_values(f) + b.map_values(f));
                    assert(str_lists(all_paths@) =~= start_paths + walks_over(g, ts, (fuel - 1) as nat).map_values(f));
                }
                k = k + 1;
            }
            proof {
                assert(targets.take(out.len() as int) =~= targets);
                let inner = walks_over(g, targets, (fuel - 1) as nat);
                let f = |w: Seq<nat>| here + names_on(self.nodes(), w);
                let h = |w: Seq<nat>| prefix + names_on(self.nodes(), w);
                let pre = |w: Seq<nat>| seq![node as nat] + w;
                assert(walks_from(g, node as nat, fuel as nat) == inner.map_values(pre));
                assert(inner.map_values(pre).map_values(h) =~= inner.map_values(f)) by {
                    assert forall|i: int| 0 <= i < inner.len() implies inner.map_values(pre).map_values(h)[i]
                        == #[trigger] inner.map_values(f)[i] by {
                        let w = inner[i];
                        assert(names_on(self.nodes(), seq![node as nat] + w) =~= seq![self.nodes()[node as nat]]
                            + names_on(self.nodes(), w));
                        assert(prefix + (seq![self.nodes()[node as nat]] + names_on(self.nodes(), w)) =~= here
                            + names_on(self.nodes(), w));
                    }
                }
            }
        }
        let ghost pre_pop = current_path@;
        current_path.pop();
        proof {
            assert(current_path@ =~= pre_pop.drop_last());
            assert(strs(pre_pop) == here);
            assert(strs(current_path@) =~= here.drop_last());
            assert(here.drop_last() =~= prefix);
        }
    }

    /// Every walk from `start_agent` to an agent without outgoing flows, as the
    /// list of agent names along it.
    pub fn find_execution_paths(&self, start_agent: &str) -> (r: Result<Vec<Vec<String>>, GraphWorkflowError>)
        requires
            self.wf(),
        ensures
            !self.is_registered(start_agent@) ==> (r matches Err(GraphWorkflowError::AgentNotFound(m))
                && m@ == start_not_found(start_agent@)),
            self.is_registered(start_agent@) ==> (r matches Ok(paths) && str_lists(paths@) == walks_from(
                self.graph(),
                self.node_of(start_agent@),
                self.nodes().len(),
            ).map_values(|w: Seq<nat>| names_on(self.nodes(), w))),
    {
        let i = match self.find_registered(start_agent) {
            Some(i) => i,
            None => {
                return Err(GraphWorkflowError::AgentNotFound(cat3("Start agent '", start_agent, "' not found")));
            },
        };
        let start_idx = self.name_to_node[i].1;
        proof {
            assert(self.nodes().contains_key(start_idx as nat));
        }
        let fuel = self.node_count();
        let mut paths: Vec<Vec<String>> = Vec::new();
        let mut current_path: Vec<String> = Vec::new();
        self.dfs_paths(start_idx, &mut current_path, &mut paths, fuel);
        proof {
            let w = walks_from(self.workflow, start_idx as nat, fuel as nat);
            let f1 = |x: Seq<nat>| strs(Seq::<String>::empty()) + names_on(self.nodes(), x);
            let f2 = |x: Seq<nat>| names_on(self.nodes(), x);
            assert(strs(Seq::<String>::empty()) =~= Seq::<Seq<char>>::empty());
            assert(w.map_values(f1) =~= w.map_values(f2)) by {
                assert forall|j: int| 0 <= j < w.len() implies #[trigger] w.map_values(f1)[j] == w.map_values(f2)[j] by {
                    assert(Seq::<Seq<char>>::empty() + names_on(self.nodes(), w[j]) =~= names_on(self.nodes(), w[j]));
                }
            }
            assert(str_lists(Seq::<Vec<String>>::empty()) =~= Seq::<Seq<Seq<char>>>::empty());
            assert(str_lists(paths@) =~= w.map_values(|x: Seq<nat>| names_on(self.nodes(), x)));
        }
        Ok(paths)
    }
}

impl DAGWorkflow {
    /// The connections leaving node `a`, with target names and labels.
    fn node_connections(&self, a: usize) -> (r: Vec<(String, Option<String>)>)
        requires
            self.wf(),
            self.nodes().contains_key(a as nat),
        ensures
            r@.map_values(|c: (String, Option<String>)| conn_view(c)) == connections(self.graph(), a as nat),
            out_edges_listed(self.graph(), a as nat),
    {
        let ghost g = self.workflow;
        let out = graph_out_edges(&self.workflow, a);
        proof {
            let order = out_edge_order(g, a as nat);
            assert(order =~= out@.map_values(|e: usize| e as nat));
            assert forall|x: int, y: int| 0 <= x < order.len() && 0 <= y < order.len() && x != y implies order[x]
                != order[y] by {
                assert(out@[x] != out@[y]);
            }
            assert forall|k: int| 0 <= k < order.len() implies graph_edges(g).contains_key(#[trigger] order[k])
                && graph_edges(g)[order[k]].source == a as nat by {
                assert(order[k] == out[k] as nat);
            }
            assert forall|e: nat| #[trigger] graph_edges(g).contains_key(e) && graph_edges(g)[e].source == a as nat
                implies order.contains(e) by {
                let i = choose|i: int| 0 <= i < out.len() && out[i] == e;
                assert(order[i] == e);
            }
        }
        let mut conns: Vec<(String, Option<String>)> = Vec::new();
        let mut k: usize = 0;
        while k < out.len()
            invariant
                self.wf(),
                g == self.workflow,
                k <= out.len(),
                out@.map_values(|e: usize| e as nat) == out_edge_order(g, a as nat),
                forall|i: int|
                    0 <= i < out.len() ==> graph_edges(g).contains_key(#[trigger] out[i] as nat)
                        && graph_edges(g)[out[i] as nat].source == a as nat,
                conns@.map_values(|c: (String, Option<String>)| conn_view(c)) == connections(g, a as nat).take(k as int),
            decreases out.len() - k,
        {
            proof {
                assert(out@.map_values(|e: usize| e as nat)[k as int] == out[k as int] as nat);
                assert(self.edges().contains_key(out[k as int] as nat));
            }
            let e = out[k];
            let (_s, t) = match graph_edge_endpoints(&self.workflow, e) {
                Some(p) => p,
                None => {
                    return conns;
                },
            };
            proof {
                assert(self.nodes().contains_key(t as nat));
            }
            let target = match graph_node_weight(&self.workflow, t) {
                Some(n) => n,
                None => {
                    return conns;
                },
            };
            let has_transform = match graph_edge_weight(&self.workflow, e) {
                Some(f) => f.transform.is_some(),
                None => false,
            };
            let label = if has_transform {
                Some(owned("transform"))
            } else {
                None
            };
            let ghost before = conns@;
            conns.push((target, label));
            proof {
                let f = |c: (String, Option<String>)| conn_view(c);
                assert(conns@ =~= before.push((target, label)));
                assert(conns@.map_values(f) =~= before.map_values(f).push(f((target, label))));
                assert(connections(g, a as nat).take(k as int + 1) =~= connections(g, a as nat).take(k as int).push(
                    connections(g, a as nat)[k as int],
                ));
            }
            k = k + 1;
        }
        proof {
            assert(connections(g, a as nat).take(out.len() as int) =~= connections(g, a as nat));
        }
        conns
    }

    /// The workflow as a list of agents, each with its outgoing connections
    /// (target agent, and `"transform"` where the flow transforms its data).
    /// Agents come in increasing node order.
    pub fn get_workflow_structure(&self) -> (r: Vec<(String, Vec<(String, Option<String>)>)>)
        requires
            self.wf(),
        ensures
            exists|ids: Seq<nat>|
                #[trigger] sorted_keys(ids, self.nodes().dom()) && r@.map_values(
                    |x: (String, Vec<(String, Option<String>)>)| structure_entry(x),
                ) == ids.map_values(|n: nat| structure_of(self.graph(), n)),
            forall|n: nat| #[trigger] self.nodes().contains_key(n) ==> out_edges_listed(self.graph(), n),
    {
        let ids = graph_node_indices(&self.workflow);
        let ghost nids = ids@.map_values(|n: usize| n as nat);
        let ghost spec_entry = |n: nat| structure_of(self.graph(), n);
        let mut out: Vec<(String, Vec<(String, Option<String>)>)> = Vec::new();
        let mut i: usize = 0;
        while i < ids.len()
            invariant
                self.wf(),
                i <= ids.len(),
                nids == ids@.map_values(|n: usize| n as nat),
                spec_entry == (|n: nat| structure_of(self.graph(), n)),
                forall|j: int| 0 <= j < ids.len() ==> self.nodes().contains_key(#[trigger] ids[j] as nat),
                out@.map_values(|x: (String, Vec<(String, Option<String>)>)| structure_entry(x)) == nids.take(
                    i as int,
                ).map_values(spec_entry),
                forall|j: int| 0 <= j < i ==> out_edges_listed(self.graph(), #[trigger] ids[j] as nat),
            decreases ids.len() - i,
        {
            let n = ids[i];
            let name = match graph_node_weight(&self.workflow, n) {
                Some(x) => x,
                None => {
                    return out;
                },
            };
            let conns = self.node_connections(n);
            let ghost before = out@;
            proof {
                assert(nids[i as int] == n as nat);
                assert(name@ == self.nodes()[n as nat]);
                assert(conns@.map_values(|c: (String, Option<String>)| conn_view(c)) == connections(self.graph(), n as nat));
                assert(structure_entry((name, conns)).1 == connections(self.graph(), n as nat));
                assert(structure_entry((name, conns)).0 == structure_of(self.graph(), n as nat).0);
                assert(structure_entry((name, conns)) == structure_of(self.graph(), n as nat));

            }
            out.push((name, conns));
            proof {
                let f = |x: (String, Vec<(String, Option<String>)>)| structure_entry(x);
                assert(out@ =~= before.push((name, conns)));
                assert(out@.map_values(f) =~= before.map_values(f).push(f((name, conns))));
                assert(nids.take(i as int + 1) =~= nids.take(i as int).push(nids[i as int]));
                assert(nids.take(i as int + 1).map_values(spec_entry) =~= nids.take(i as int).map_values(spec_entry).push(
                    spec_entry(nids[i as int]),
                ));
            }
            i = i + 1;
        }
        proof {
            assert(nids.take(ids.len() as int) =~= nids);
            assert(sorted_keys(nids, self.nodes().dom())) by {
                assert forall|a: int, b: int| 0 <= a < b < nids.len() implies nids[a] < nids[b] by {
                    assert(ids[a] < ids[b]);
                }
                assert forall|a: int| 0 <= a < nids.len() implies self.nodes().dom().contains(#[trigger] nids[a]) by {
                    assert(self.nodes().contains_key(ids[a] as nat));
                }
                assert forall|n: nat| self.nodes().dom().contains(n) implies exists|a: int|
                    0 <= a < nids.len() && nids[a] == n by {
                    let a = choose|a: int| 0 <= a < ids.len() && ids[a] == n;
                    assert(nids[a] == n);
                }
            }
            assert forall|n: nat| #[trigger] self.nodes().contains_key(n) implies out_edges_listed(self.graph(), n) by {
                let a = choose|a: int| 0 <= a < ids.len() && ids[a] == n;
                assert(out_edges_listed(self.graph(), ids[a] as nat));
            }
        }
        out
    }

    /// The workflow in Graphviz DOT form: one line per agent, in increasing node
    /// order, then one line per flow, in increasing edge order.
    pub fn export_workflow_dot(&self) -> (r: String)
        requires
            self.wf(),
        ensures
            exists|node_ids: Seq<nat>, edge_ids: Seq<nat>|
                #![trigger sorted_keys(node_ids, self.nodes().dom()), sorted_keys(edge_ids, self.edges().dom())]
                sorted_keys(node_ids, self.nodes().dom()) && sorted_keys(edge_ids, self.edges().dom()) && r@
                    == dot_text(self.nodes(), self.edges(), node_ids, edge_ids),
    {
        let mut dot = owned("digraph {\n");
        let ids = graph_node_indices(&self.workflow);
        let ghost nids = ids@.map_values(|n: usize| n as nat);
        let ghost head = "digraph {\n"@;
        let mut i: usize = 0;
        while i < ids.len()
            invariant
                self.wf(),
                i <= ids.len(),
                nids == ids@.map_values(|n: usize| n as nat),
                forall|j: int| 0 <= j < ids.len() ==> self.nodes().contains_key(#[trigger] ids[j] as nat),
                dot@ == head + dot_node_lines(self.nodes(), nids.take(i as int)),
            decreases ids.len() - i,
        {
            let name = match graph_node_weight(&self.workflow, ids[i]) {
                Some(x) => x,
                None => {
                    return dot;
                },
            };
            dot.append("    \"");
            dot.append(name.as_str());
            dot.append("\" [label=\"");
            dot.append(name.as_str());
            dot.append("\"];\n");
            proof {
                let t = nids.take(i as int + 1);
                assert(t.drop_last() =~= nids.take(i as int));
                assert(t.last() == ids[i as int] as nat);
                assert(dot@ =~= head + dot_node_lines(self.nodes(), t));
            }
            i = i + 1;
        }
        let list = graph_edge_list(&self.workflow);
        let ghost eids = list@.map_values(|t: (usize, usize, usize)| t.0 as nat);
        let ghost node_part = head + dot_node_lines(self.nodes(), nids);
        proof {
            assert(nids.take(ids.len() as int) =~= nids);
        }
        let mut k: usize = 0;
        while k < list.len()
            invariant
                self.wf(),
                k <= list.len(),
                eids == list@.map_values(|t: (usize, usize, usize)| t.0 as nat),
                forall|j: int|
                    0 <= j < list.len() ==> {
                        &&& self.edges().contains_key(#[trigger] list@[j].0 as nat)
                        &&& self.edges()[list@[j].0 as nat].source == list@[j].1
                        &&& self.edges()[list@[j].0 as nat].target == list@[j].2
                    },
                dot@ == node_part + dot_edge_lines(self.nodes(), self.edges(), eids.take(k as int)),
            decreases list.len() - k,
        {
            let (e, s, t) = list[k];
            proof {
                assert(self.edges().contains_key(e as nat));
                assert(self.nodes().contains_key(s as nat));
                assert(self.nodes().contains_key(t as nat));
            }
            let sname = match graph_node_weight(&self.workflow, s) {
                Some(x) => x,
                None => {
                    return dot;
                },
            };
            let tname = match graph_node_weight(&self.workflow, t) {
                Some(x) => x,
                None => {
                    return dot;
                },
            };
            dot.append("    \"");
            dot.append(sname.as_str());
            dot.append("\" -> \"");
            dot.append(tname.as_str());
            dot.append("\";\n");
            proof {
                let tk = eids.take(k as int + 1);
                assert(tk.drop_last() =~= eids.take(k as int));
                assert(tk.last() == e as nat);
                assert(dot@ =~= node_part + dot_edge_lines(self.nodes(), self.edges(), tk));
            }
            k = k + 1;
        }
        dot.append("}\n");
        proof {
            assert(eids.take(list.len() as int) =~= eids);
            assert(sorted_keys(nids, self.nodes().dom())) by {
                assert forall|a: int, b: int| 0 <= a < b < nids.len() implies nids[a] < nids[b] by {
                    assert(ids[a] < ids[b]);
                }
                assert forall|a: int| 0 <= a < nids.len() implies self.nodes().dom().contains(#[trigger] nids[a]) by {
                    assert(self.nodes().contains_key(ids[a] as nat));
                }
                assert forall|n: nat| self.nodes().dom().contains(n) implies exists|a: int|
                    0 <= a < nids.len() && nids[a] == n by {
                    let a = choose|a: int| 0 <= a < ids.len() && ids[a] == n;
                    assert(nids[a] == n);
                }
            }
            assert(sorted_keys(eids, self.edges().dom())) by {
                assert forall|a: int, b: int| 0 <= a < b < eids.len() implies eids[a] < eids[b] by {
                    assert(list@[a].0 < list@[b].0);
                }
                assert forall|a: int| 0 <= a < eids.len() implies self.edges().dom().contains(#[trigger] eids[a]) by {
                    assert(self.edges().contains_key(list@[a].0 as nat));
                }
                assert forall|n: nat| self.edges().dom().contains(n) implies exists|a: int|
                    0 <= a < eids.len() && eids[a] == n by {
                    let a = choose|a: int| 0 <= a < list.len() && list@[a].0 == n;
                    assert(eids[a] == n);
                }
            }
            assert(dot@ =~= dot_text(self.nodes(), self.edges(), nids, eids));
        }
        dot
    }

    /// Groups of agents that depend on each other in a circle (strongly connected
    /// components of more than one agent). The graph never has a cycle, so the
    /// result is always empty.
    pub fn detect_potential_deadlocks(&self) -> (r: Vec<Vec<String>>)
        requires
            self.wf(),
        ensures
            str_lists(r@) == cyclic_components(self.graph()),
            r.len() == 0,
    {
        let comps = graph_scc(&self.workflow);
        let ghost g = self.workflow;
        let ghost cs = comps@.map_values(|c: Vec<usize>| c@.map_values(|n: usize| n as nat));
        let result: Vec<Vec<String>> = Vec::new();
        let mut i: usize = 0;
        while i < comps.len()
            invariant
                self.wf(),
                g == self.workflow,
                i <= comps.len(),
                result.len() == 0,
                forall|j: int| 0 <= j < comps.len() ==> (#[trigger] comps[j])@.no_duplicates(),
                forall|j: int, a: int, b: int|
                    0 <= j < comps.len() && 0 <= a < comps[j].len() && 0 <= b < comps[j].len() ==> reaches(
                        graph_edges(g),
                        #[trigger] comps[j][a] as nat,
                        #[trigger] comps[j][b] as nat,
                    ),
            decreases comps.len() - i,
        {
            if comps[i].len() > 1 {
                proof {
                    let c = comps[i as int];
                    assert(c@[0] != c@[1]);
                    assert(reaches(graph_edges(g), c[0] as nat, c[1] as nat));
                    assert(reaches(graph_edges(g), c[1] as nat, c[0] as nat));
                    lemma_acyclic_no_mutual_reach(graph_edges(g), c[0] as nat, c[1] as nat);
                }
                return result;
            }
            i = i + 1;
        }
        proof {
            assert forall|j: int| 0 <= j < cs.len() implies (#[trigger] cs[j]).len() <= 1 by {
                let c = comps[j];
                if c.len() > 1 {
                    assert(c@[0] != c@[1]);
                    assert(reaches(graph_edges(g), c[0] as nat, c[1] as nat));
                    assert(reaches(graph_edges(g), c[1] as nat, c[0] as nat));
                    lemma_acyclic_no_mutual_reach(graph_edges(g), c[0] as nat, c[1] as nat);
                }
            }
            lemma_filter_none_long(cs);
            assert(str_lists(result@) =~= Seq::<Seq<Seq<char>>>::empty());
            assert(cyclic_components(g) =~= Seq::<Seq<Seq<char>>>::empty());
        }
        result
    }
}

/// No component is longer than one: keeping the longer ones keeps nothing.
proof fn lemma_filter_none_long(cs: Seq<Seq<nat>>)
    requires
        forall|j: int| 0 <= j < cs.len() ==> (#[trigger] cs[j]).len() <= 1,
    ensures
        cs.filter(|c: Seq<nat>| c.len() > 1).len() == 0,
    decreases cs.len(),
{
    reveal_with_fuel(Seq::filter, 1);
    if cs.len() > 0 {
        let rest = cs.drop_last();
        assert forall|j: int| 0 <= j < rest.len() implies (#[trigger] rest[j]).len() <= 1 by {
            assert(rest[j] == cs[j]);
        }
        lemma_filter_none_long(rest);
        assert(cs.last().len() <= 1);
    }
}

/// What became of an agent that the workflow asked to run.
pub enum AgentOutcome {
    /// The agent answered with this output.
    Completed(String),
    /// The agent failed with this message.
    Failed(String),
    /// The agent did not answer in time.
    TimedOut,
}

/// What the caller must do next for a running workflow.
pub enum WorkflowAction {
    /// Run this agent on this input and report its outcome.
    RunAgent { agent: String, input: String },
    /// The workflow has finished.
    Finished,
}

/// An agent that produced output, with the flows it may still feed (those
/// whose condition held), in edge order, and how many of them have been fed.
struct Frame {
    node: usize,
    output: String,
    edges: Vec<usize>,
    next: usize,
}

/// The state of one execution of a workflow: which agents have a result, which
/// flows have delivered and what, and where the depth-first propagation stands.
pub struct WorkflowRun {
    /// Agents that have a result, with the result, in completion order.
    done: Vec<(usize, Result<String, GraphWorkflowError>)>,
    /// Flows that have delivered: (source node, target node).
    delivered: Vec<(usize, usize)>,
    /// Inputs delivered so far: (target node, source node, input), in delivery order.
    inbox: Vec<(usize, usize, String)>,
    frames: Vec<Frame>,
    /// The agent whose outcome is awaited.
    running: Option<usize>,
    start_done: bool,
    start_error: Option<GraphWorkflowError>,
    /// The node of the start agent.
    start: Ghost<nat>,
    graph: Ghost<WorkflowGraph>,
    /// Agents that did not answer in time.
    timed_out: Ghost<Set<nat>>,
}

/// `"[From " + source + "] " + input + "\n"`.
pub open spec fn from_line(source: Seq<char>, input: Seq<char>) -> Seq<char> {
    "[From "@ + source + "] "@ + input + "\n"@
}

/// The lines of every input delivered to node `t`, in delivery order.
pub open spec fn received_text(nodes: Map<nat, Seq<char>>, inbox: Seq<(usize, usize, String)>, t: nat) -> Seq<
    char,
>
    decreases inbox.len(),
{
    if inbox.len() == 0 {
        Seq::empty()
    } else {
        received_text(nodes, inbox.drop_last(), t) + if inbox.last().0 == t {
            from_line(nodes[inbox.last().1 as nat], inbox.last().2@)
        } else {
            Seq::empty()
        }
    }
}

/// Node `n` has a result in `done`.
pub open spec fn has_result(done: Seq<(usize, Result<String, GraphWorkflowError>)>, n: nat) -> bool {
    exists|i: int| 0 <= i < done.len() && #[trigger] done[i].0 == n
}

/// Every flow into `n` has delivered.
pub open spec fn all_delivered(edges: Map<nat, EdgeView>, delivered: Seq<(usize, usize)>, n: nat) -> bool {
    forall|e: nat|
        #[trigger] edges.contains_key(e) && edges[e].target == n ==> exists|i: int|
            0 <= i < delivered.len() && delivered[i].0 == edges[e].source && delivered[i].1 == n
}

/// Each recorded result belongs to a live node, and no node has two.
spec fn done_ok(g: WorkflowGraph, done: Seq<(usize, Result<String, GraphWorkflowError>)>) -> bool {
    &&& forall|i: int| 0 <= i < done.len() ==> graph_nodes(g).contains_key(#[trigger] done[i].0 as nat)
    &&& forall|i: int, j: int| 0 <= i < j < done.len() ==> done[i].0 != done[j].0
}

/// Each delivered input comes from a live node.
spec fn inbox_ok(g: WorkflowGraph, inbox: Seq<(usize, usize, String)>) -> bool {
    forall|i: int| 0 <= i < inbox.len() ==> graph_nodes(g).contains_key(#[trigger] inbox[i].1 as nat)
}

/// A frame sits on a live node and lists live edges out of it.
spec fn frame_ok(g: WorkflowGraph, f: Frame) -> bool {
    &&& graph_nodes(g).contains_key(f.node as nat)
    &&& f.next <= f.edges.len()
    &&& forall|k: int|
        0 <= k < f.edges.len() ==> graph_edges(g).contains_key(#[trigger] f.edges@[k] as nat)
            && graph_edges(g)[f.edges@[k] as nat].source == f.node as nat
            && (graph_edges(g)[f.edges@[k] as nat].flow.condition_fn)(f.output@)
}

spec fn frames_ok(g: WorkflowGraph, frames: Seq<Frame>) -> bool {
    forall|i: int| 0 <= i < frames.len() ==> #[trigger] frame_ok(g, frames[i])
}

/// Node `n` completed with output `o`.
pub open spec fn completed_with(done: Seq<(usize, Result<String, GraphWorkflowError>)>, n: nat, o: Seq<char>) -> bool {
    exists|i: int| 0 <= i < done.len() && (#[trigger] done[i]).0 == n && done[i].1 is Ok && done[i].1->Ok_0@ == o
}

/// A delivered input `(target, source, text)` travelled along a flow from a
/// source that completed, and equals the source's output when the flow does
/// not transform it.
pub open spec fn traced_entry(
    edges: Map<nat, EdgeView>,
    done: Seq<(usize, Result<String, GraphWorkflowError>)>,
    target: nat,
    source: nat,
    text: Seq<char>,
) -> bool {
    exists|e: nat, o: Seq<char>|
        #![trigger edges[e], completed_with(done, source, o)]
        edges.contains_key(e) && edges[e].source == source && edges[e].target == target && completed_with(
            done,
            source,
            o,
        ) && text == (edges[e].flow.transform_fn)(o) && (edges[e].flow.condition_fn)(o)
}

/// Every delivered input is traced (see `traced_entry`).
pub open spec fn inputs_traced(
    edges: Map<nat, EdgeView>,
    done: Seq<(usize, Result<String, GraphWorkflowError>)>,
    inbox: Seq<(usize, usize, String)>,
) -> bool {
    forall|i: int|
        #![trigger inbox[i]]
        0 <= i < inbox.len() ==> traced_entry(edges, done, inbox[i].0 as nat, inbox[i].1 as nat, inbox[i].2@)
}

/// Each frame's output is its node's completed output.
spec fn frames_done(done: Seq<(usize, Result<String, GraphWorkflowError>)>, frames: Seq<Frame>) -> bool {
    forall|i: int| 0 <= i < frames.len() ==> completed_with(done, #[trigger] frames[i].node as nat, frames[i].output@)
}

proof fn lemma_completed_grows(
    done: Seq<(usize, Result<String, GraphWorkflowError>)>,
    x: (usize, Result<String, GraphWorkflowError>),
    n: nat,
    o: Seq<char>,
)
    requires
        completed_with(done, n, o),
    ensures
        completed_with(done.push(x), n, o),
{
    let i = choose|i: int| 0 <= i < done.len() && (#[trigger] done[i]).0 == n && done[i].1 is Ok && done[i].1->Ok_0@ == o;
    assert(done.push(x)[i] == done[i]);
}

proof fn lemma_traced_grows(
    edges: Map<nat, EdgeView>,
    done: Seq<(usize, Result<String, GraphWorkflowError>)>,
    x: (usize, Result<String, GraphWorkflowError>),
    inbox: Seq<(usize, usize, String)>,
    frames: Seq<Frame>,
)
    requires
        inputs_traced(edges, done, inbox),
        frames_done(done, frames),
    ensures
        inputs_traced(edges, done.push(x), inbox),
        frames_done(done.push(x), frames),
{
    assert forall|i: int| #![trigger inbox[i]] 0 <= i < inbox.len() implies traced_entry(
        edges,
        done.push(x),
        inbox[i].0 as nat,
        inbox[i].1 as nat,
        inbox[i].2@,
    ) by {
        assert(traced_entry(edges, done, inbox[i].0 as nat, inbox[i].1 as nat, inbox[i].2@));
        let (e, o) = choose|e: nat, o: Seq<char>|
            #![trigger edges[e], completed_with(done, inbox[i].1 as nat, o)]
            edges.contains_key(e) && edges[e].source == inbox[i].1 as nat && edges[e].target == inbox[i].0 as nat
                && completed_with(done, inbox[i].1 as nat, o) && inbox[i].2@ == (edges[e].flow.transform_fn)(o) && (edges[e].flow.condition_fn)(o);
        lemma_completed_grows(done, x, inbox[i].1 as nat, o);
    }
    assert forall|i: int| 0 <= i < frames.len() implies completed_with(
        done.push(x),
        #[trigger] frames[i].node as nat,
        frames[i].output@,
    ) by {
        lemma_completed_grows(done, x, frames[i].node as nat, frames[i].output@);
    }
}

/// Some input was delivered to node `t`.
pub open spec fn has_input(inbox: Seq<(usize, usize, String)>, t: nat) -> bool {
    exists|i: int| 0 <= i < inbox.len() && #[trigger] inbox[i].0 == t
}

/// Node `t` has a result or did not answer in time.
pub open spec fn settled(done: Seq<(usize, Result<String, GraphWorkflowError>)>, timed_out: Set<nat>, t: nat) -> bool {
    has_result(done, t) || timed_out.contains(t)
}

/// Flow `e` has delivered.
pub open spec fn flow_delivered(edges: Map<nat, EdgeView>, delivered: Seq<(usize, usize)>, e: nat) -> bool {
    exists|k: int|
        0 <= k < delivered.len() && #[trigger] delivered[k].0 == edges[e].source && delivered[k].1 == edges[e].target
}

/// Every agent that received input and whose every inflow has delivered has
/// run (it has a result or did not answer in time).
pub open spec fn ready_ones_ran(
    edges: Map<nat, EdgeView>,
    delivered: Seq<(usize, usize)>,
    inbox: Seq<(usize, usize, String)>,
    done: Seq<(usize, Result<String, GraphWorkflowError>)>,
    timed_out: Set<nat>,
) -> bool {
    forall|t: nat| #[trigger] has_input(inbox, t) && all_delivered(edges, delivered, t) ==> settled(done, timed_out, t)
}

/// Every flow out of an agent that completed whose condition holds on the
/// agent's output (a flow without a condition always holds) has delivered.
pub open spec fn taken_flows_fed(
    edges: Map<nat, EdgeView>,
    done: Seq<(usize, Result<String, GraphWorkflowError>)>,
    delivered: Seq<(usize, usize)>,
) -> bool {
    forall|i: int, e: nat|
        #![trigger done[i], edges[e]]
        0 <= i < done.len() && done[i].1 is Ok && edges.contains_key(e) && edges[e].source == done[i].0
            && (edges[e].flow.condition_fn)(done[i].1->Ok_0@) ==> flow_delivered(edges, delivered, e)
}

/// Every delivery `(source, target)` handed the target an input from that source.
pub open spec fn deliveries_recorded(delivered: Seq<(usize, usize)>, inbox: Seq<(usize, usize, String)>) -> bool {
    forall|k: int|
        #![trigger delivered[k]]
        0 <= k < delivered.len() ==> exists|i: int|
            0 <= i < inbox.len() && #[trigger] inbox[i].0 == delivered[k].1 && inbox[i].1 == delivered[k].0
}

/// Flow `e` waits in a frame, not yet fed.
spec fn pending(frames: Seq<Frame>, e: nat) -> bool {
    exists|j: int, k: int|
        #![trigger frames[j].edges@[k]]
        0 <= j < frames.len() && frames[j].next <= k < frames[j].edges.len() && frames[j].edges@[k] == e
}

/// An agent that received all its inputs has run or is running.
spec fn ready_handled(
    edges: Map<nat, EdgeView>,
    delivered: Seq<(usize, usize)>,
    inbox: Seq<(usize, usize, String)>,
    done: Seq<(usize, Result<String, GraphWorkflowError>)>,
    timed_out: Set<nat>,
    running: Option<usize>,
) -> bool {
    forall|t: nat|
        #[trigger] has_input(inbox, t) && all_delivered(edges, delivered, t) ==> settled(done, timed_out, t) || (
        running matches Some(r) && r as nat == t)
}

/// Each flow out of a completed agent whose condition holds on the agent's
/// output has delivered or waits in a frame.
spec fn flows_fed(
    edges: Map<nat, EdgeView>,
    done: Seq<(usize, Result<String, GraphWorkflowError>)>,
    delivered: Seq<(usize, usize)>,
    frames: Seq<Frame>,
) -> bool {
    forall|i: int, e: nat|
        #![trigger done[i], edges[e]]
        0 <= i < done.len() && done[i].1 is Ok && edges.contains_key(e) && edges[e].source == done[i].0
            && (edges[e].flow.condition_fn)(done[i].1->Ok_0@) ==> flow_delivered(edges, delivered, e) || pending(frames, e)
}

/// Once the agent that was running is settled, an agent that received all
/// its inputs is settled.
proof fn lemma_settle_running(
    edges: Map<nat, EdgeView>,
    delivered: Seq<(usize, usize)>,
    inbox: Seq<(usize, usize, String)>,
    done: Seq<(usize, Result<String, GraphWorkflowError>)>,
    timed_out: Set<nat>,
    n: usize,
    done2: Seq<(usize, Result<String, GraphWorkflowError>)>,
    timed_out2: Set<nat>,
)
    requires
        ready_handled(edges, delivered, inbox, done, timed_out, Some(n)),
        done2.len() >= done.len(),
        forall|i: int| 0 <= i < done.len() ==> done2[i] == done[i],
        timed_out.subset_of(timed_out2),
        settled(done2, timed_out2, n as nat),
    ensures
        ready_handled(edges, delivered, inbox, done2, timed_out2, None),
{
    assert forall|t: nat| #[trigger] has_input(inbox, t) && all_delivered(edges, delivered, t) implies settled(
        done2,
        timed_out2,
        t,
    ) by {
        if t != n as nat {
            assert(settled(done, timed_out, t));
            if has_result(done, t) {
                let i = choose|i: int| 0 <= i < done.len() && #[trigger] done[i].0 == t;
                assert(done2[i] == done[i]);
            }
        }
    }
}

/// A failure feeds nothing: the flows owed stay owed.
proof fn lemma_fed_failed(
    edges: Map<nat, EdgeView>,
    done: Seq<(usize, Result<String, GraphWorkflowError>)>,
    x: (usize, Result<String, GraphWorkflowError>),
    delivered: Seq<(usize, usize)>,
    frames: Seq<Frame>,
)
    requires
        flows_fed(edges, done, delivered, frames),
        x.1 is Err,
    ensures
        flows_fed(edges, done.push(x), delivered, frames),
{
    let d = done.push(x);
    assert forall|i: int, e: nat|
        #![trigger d[i], edges[e]]
        0 <= i < d.len() && d[i].1 is Ok && edges.contains_key(e) && edges[e].source == d[i].0
            && (edges[e].flow.condition_fn)(d[i].1->Ok_0@) implies flow_delivered(edges, delivered, e) || pending(frames, e) by {
        assert(i < done.len());
        assert(d[i] == done[i]);
    }
}

/// A completed agent whose frame lists every flow out of it whose condition
/// holds on its output owes those flows in that frame.
proof fn lemma_fed_completed(
    edges: Map<nat, EdgeView>,
    done: Seq<(usize, Result<String, GraphWorkflowError>)>,
    x: (usize, Result<String, GraphWorkflowError>),
    delivered: Seq<(usize, usize)>,
    frames: Seq<Frame>,
    f: Frame,
)
    requires
        flows_fed(edges, done, delivered, frames),
        f.next == 0,
        forall|e: nat|
            #[trigger] edges.contains_key(e) && edges[e].source == x.0 && (edges[e].flow.condition_fn)(x.1->Ok_0@) ==> exists|k: int|
                0 <= k < f.edges.len() && f.edges@[k] == e,
    ensures
        flows_fed(edges, done.push(x), delivered, frames.push(f)),
{
    let d = done.push(x);
    let fs = frames.push(f);
    assert forall|i: int, e: nat|
        #![trigger d[i], edges[e]]
        0 <= i < d.len() && d[i].1 is Ok && edges.contains_key(e) && edges[e].source == d[i].0
            && (edges[e].flow.condition_fn)(d[i].1->Ok_0@) implies flow_delivered(edges, delivered, e) || pending(fs, e) by {
        if i < done.len() {
            assert(d[i] == done[i]);
            if !flow_delivered(edges, delivered, e) {
                assert(pending(frames, e));
                let (j, k) = choose|j: int, k: int|
                    #![trigger frames[j].edges@[k]]
                    0 <= j < frames.len() && frames[j].next <= k < frames[j].edges.len() && frames[j].edges@[k] == e;
                assert(fs[j] == frames[j]);
                assert(fs[j].edges@[k] == e);
            }
        } else {
            let k = choose|k: int| 0 <= k < f.edges.len() && f.edges@[k] == e;
            assert(fs[frames.len() as int] == f);
            assert(fs[frames.len() as int].edges@[k] == e);
        }
    }
}

/// With no frame left and no agent running, the run is closed: every agent
/// that received all its inputs has run, and every flow out of a completed
/// agent whose condition holds on its output has delivered.
proof fn lemma_run_closed(
    edges: Map<nat, EdgeView>,
    delivered: Seq<(usize, usize)>,
    inbox: Seq<(usize, usize, String)>,
    done: Seq<(usize, Result<String, GraphWorkflowError>)>,
    timed_out: Set<nat>,
    frames: Seq<Frame>,
)
    requires
        ready_handled(edges, delivered, inbox, done, timed_out, None),
        flows_fed(edges, done, delivered, frames),
        frames.len() == 0,
    ensures
        ready_ones_ran(edges, delivered, inbox, done, timed_out),
        taken_flows_fed(edges, done, delivered),
{
    assert forall|i: int, e: nat|
        #![trigger done[i], edges[e]]
        0 <= i < done.len() && done[i].1 is Ok && edges.contains_key(e) && edges[e].source == done[i].0
            && (edges[e].flow.condition_fn)(done[i].1->Ok_0@) implies flow_delivered(edges, delivered, e) by {
        if !flow_delivered(edges, delivered, e) {
            assert(pending(frames, e));
        }
    }
}

/// Dropping a frame whose flows are all fed keeps the frames' bookkeeping.
proof fn lemma_drop_spent_frame(
    g: WorkflowGraph,
    done: Seq<(usize, Result<String, GraphWorkflowError>)>,
    delivered: Seq<(usize, usize)>,
    prev: Seq<Frame>,
)
    requires
        prev.len() > 0,
        frames_ok(g, prev),
        frames_done(done, prev),
        flows_fed(graph_edges(g), done, delivered, prev),
        prev[prev.len() - 1].next >= prev[prev.len() - 1].edges.len(),
    ensures
        frames_ok(g, prev.drop_last()),
        frames_done(done, prev.drop_last()),
        flows_fed(graph_edges(g), done, delivered, prev.drop_last()),
{
    let fs = prev.drop_last();
    let edges = graph_edges(g);
    assert forall|i: int| 0 <= i < fs.len() implies #[trigger] frame_ok(g, fs[i]) by {
        assert(fs[i] == prev[i]);
        assert(frame_ok(g, prev[i]));
    }
    assert forall|i: int| 0 <= i < fs.len() implies completed_with(done, #[trigger] fs[i].node as nat, fs[i].output@) by {
        assert(fs[i] == prev[i]);
    }
    assert forall|i: int, e2: nat|
        #![trigger done[i], edges[e2]]
        0 <= i < done.len() && done[i].1 is Ok && edges.contains_key(e2) && edges[e2].source == done[i].0
            && (edges[e2].flow.condition_fn)(done[i].1->Ok_0@) implies flow_delivered(edges, delivered, e2) || pending(
        fs,
        e2,
    ) by {
        if !flow_delivered(edges, delivered, e2) {
            assert(pending(prev, e2));
            let (j, k) = choose|j: int, k: int|
                #![trigger prev[j].edges@[k]]
                0 <= j < prev.len() && prev[j].next <= k < prev[j].edges.len() && prev[j].edges@[k] == e2;
            assert(j < prev.len() - 1);
            assert(fs[j] == prev[j]);
            assert(fs[j].edges@[k] == e2);
        }
    }
}

/// Feeding the next flow of the top frame, from `src` to `t` with `text`,
/// keeps the run's bookkeeping; agents other than `t` that received all their
/// inputs stay settled.
#[verifier::rlimit(40)]
proof fn lemma_deliver(
    g: WorkflowGraph,
    done: Seq<(usize, Result<String, GraphWorkflowError>)>,
    timed_out: Set<nat>,
    delivered: Seq<(usize, usize)>,
    inbox: Seq<(usize, usize, String)>,
    prev: Seq<Frame>,
    f: Frame,
    e: nat,
    src: usize,
    t: usize,
    text: String,
)
    requires
        prev.len() > 0,
        frames_ok(g, prev),
        frames_done(done, prev),
        inputs_traced(graph_edges(g), done, inbox),
        inbox_ok(g, inbox),
        ready_handled(graph_edges(g), delivered, inbox, done, timed_out, None),
        flows_fed(graph_edges(g), done, delivered, prev),
        deliveries_recorded(delivered, inbox),
        f.node == prev[prev.len() - 1].node,
        f.output == prev[prev.len() - 1].output,
        f.edges == prev[prev.len() - 1].edges,
        f.next == prev[prev.len() - 1].next + 1,
        prev[prev.len() - 1].next < prev[prev.len() - 1].edges.len(),
        e == prev[prev.len() - 1].edges@[prev[prev.len() - 1].next as int],
        graph_edges(g)[e].target == t,
        src == f.node,
        text@ == (graph_edges(g)[e].flow.transform_fn)(f.output@),
    ensures
        frames_ok(g, prev.drop_last().push(f)),
        frames_done(done, prev.drop_last().push(f)),
        inputs_traced(graph_edges(g), done, inbox.push((t, src, text))),
        inbox_ok(g, inbox.push((t, src, text))),
        flows_fed(graph_edges(g), done, delivered.push((src, t)), prev.drop_last().push(f)),
        deliveries_recorded(delivered.push((src, t)), inbox.push((t, src, text))),
        forall|t2: nat|
            #[trigger] has_input(inbox.push((t, src, text)), t2) && all_delivered(
                graph_edges(g),
                delivered.push((src, t)),
                t2,
            ) && t2 != t ==> settled(done, timed_out, t2),
{
    let edges = graph_edges(g);
    let last = prev[prev.len() - 1];
    let fs = prev.drop_last().push(f);
    let dl = delivered.push((src, t));
    let ib = inbox.push((t, src, text));
    assert(frame_ok(g, last));
    assert(edges.contains_key(e) && edges[e].source == src);
    assert(frame_ok(g, f));
    assert forall|i: int| 0 <= i < fs.len() implies #[trigger] frame_ok(g, fs[i]) by {
        if i < prev.len() - 1 {
            assert(fs[i] == prev[i]);
            assert(frame_ok(g, prev[i]));
        }
    }
    assert(completed_with(done, last.node as nat, last.output@));
    assert forall|i: int| 0 <= i < fs.len() implies completed_with(done, #[trigger] fs[i].node as nat, fs[i].output@) by {
        if i < prev.len() - 1 {
            assert(fs[i] == prev[i]);
        }
    }
    assert(traced_entry(edges, done, t as nat, src as nat, text@));
    assert forall|i: int| #![trigger ib[i]] 0 <= i < ib.len() implies traced_entry(
        edges,
        done,
        ib[i].0 as nat,
        ib[i].1 as nat,
        ib[i].2@,
    ) by {
        if i < inbox.len() {
            assert(ib[i] == inbox[i]);
        }
    }
    assert forall|i: int| 0 <= i < ib.len() implies graph_nodes(g).contains_key(#[trigger] ib[i].1 as nat) by {
        if i < inbox.len() {
            assert(ib[i] == inbox[i]);
        }
    }
    assert(dl[dl.len() - 1] == (src, t));
    assert forall|i: int, e2: nat|
        #![trigger done[i], edges[e2]]
        0 <= i < done.len() && done[i].1 is Ok && edges.contains_key(e2) && edges[e2].source == done[i].0
            && (edges[e2].flow.condition_fn)(done[i].1->Ok_0@) implies flow_delivered(edges, dl, e2) || pending(
        fs,
        e2,
    ) by {
        if flow_delivered(edges, delivered, e2) {
            let k = choose|k: int|
                0 <= k < delivered.len() && #[trigger] delivered[k].0 == edges[e2].source && delivered[k].1
                    == edges[e2].target;
            assert(dl[k] == delivered[k]);
        } else {
            assert(pending(prev, e2));
            let (j, k) = choose|j: int, k: int|
                #![trigger prev[j].edges@[k]]
                0 <= j < prev.len() && prev[j].next <= k < prev[j].edges.len() && prev[j].edges@[k] == e2;
            if j < prev.len() - 1 {
                assert(fs[j] == prev[j]);
                assert(fs[j].edges@[k] == e2);
            } else if k == last.next {
                assert(e2 == e);
                assert(dl[dl.len() - 1].0 == edges[e2].source && dl[dl.len() - 1].1 == edges[e2].target);
                assert(flow_delivered(edges, dl, e2));
            } else {
                assert(fs[j] == f);
                assert(fs[j].edges@[k] == e2);
            }
        }
    }
    assert forall|t2: nat|
        #[trigger] has_input(ib, t2) && all_delivered(edges, dl, t2) && t2 != t implies settled(done, timed_out, t2) by {
        let i = choose|i: int| 0 <= i < ib.len() && #[trigger] ib[i].0 == t2;
        assert(i < inbox.len());
        assert(inbox[i] == ib[i]);
        assert(has_input(inbox, t2));
        assert forall|e2: nat| #[trigger] edges.contains_key(e2) && edges[e2].target == t2 implies exists|k: int|
            0 <= k < delivered.len() && delivered[k].0 == edges[e2].source && delivered[k].1 == t2 by {
            let k = choose|k: int| 0 <= k < dl.len() && dl[k].0 == edges[e2].source && dl[k].1 == t2;
            assert(k < delivered.len());
            assert(delivered[k] == dl[k]);
        }
        assert(all_delivered(edges, delivered, t2));
    }
    assert forall|k: int|
        #![trigger dl[k]]
        0 <= k < dl.len() implies exists|i: int| 0 <= i < ib.len() && #[trigger] ib[i].0 == dl[k].1 && ib[i].1 == dl[k].0 by {
        if k < delivered.len() {
            assert(dl[k] == delivered[k]);
            let i = choose|i: int| 0 <= i < inbox.len() && #[trigger] inbox[i].0 == delivered[k].1 && inbox[i].1 == delivered[k].0;
            assert(ib[i] == inbox[i]);
        } else {
            assert(ib[ib.len() - 1] == (t, src, text));
        }
    }
}

/// The agent awaited is live and has no result yet.
spec fn running_ok(g: WorkflowGraph, done: Seq<(usize, Result<String, GraphWorkflowError>)>, running: Option<usize>) -> bool {
    running matches Some(n) ==> graph_nodes(g).contains_key(n as nat) && !has_result(done, n as nat)
}

impl WorkflowRun {
    pub closed spec fn spec_graph(&self) -> WorkflowGraph {
        self.graph@
    }

    /// Nodes with a result, and the results, in completion order.
    pub closed spec fn spec_done(&self) -> Seq<(usize, Result<String, GraphWorkflowError>)> {
        self.done@
    }

    pub closed spec fn spec_delivered(&self) -> Seq<(usize, usize)> {
        self.delivered@
    }

    pub closed spec fn spec_inbox(&self) -> Seq<(usize, usize, String)> {
        self.inbox@
    }

    pub closed spec fn spec_running(&self) -> Option<usize> {
        self.running
    }

    /// The error of the start agent, once it failed or timed out.
    pub closed spec fn spec_start_error(&self) -> Option<GraphWorkflowError> {
        self.start_error
    }

    /// The node of the start agent.
    pub closed spec fn spec_start(&self) -> nat {
        self.start@
    }

    /// Before its outcome the start agent is the one awaited and nothing has a
    /// result; after it, with no start error, the first result is the start
    /// agent's answer.
    closed spec fn start_tracked(&self) -> bool {
        &&& !self.start_done ==> self.done.len() == 0 && (self.running matches Some(r) && r as nat == self.start@)
        &&& self.start_done && self.start_error is None ==> self.done.len() > 0 && self.done@[0].0 as nat
            == self.start@ && self.done@[0].1 is Ok
    }

    /// The outcome awaited is that of the start agent.
    pub closed spec fn spec_start_pending(&self) -> bool {
        !self.start_done
    }

    /// The agents that did not answer in time.
    pub closed spec fn spec_timed_out(&self) -> Set<nat> {
        self.timed_out@
    }

    pub closed spec fn inv(&self) -> bool {
        &&& self.bookkeeping()
        &&& self.start_tracked()
        &&& ready_handled(graph_edges(self.graph@), self.delivered@, self.inbox@, self.done@, self.timed_out@, self.running)
    }

    /// Everything `inv` holds but that ready agents have run.
    closed spec fn bookkeeping(&self) -> bool {
        &&& done_ok(self.graph@, self.done@)
        &&& inbox_ok(self.graph@, self.inbox@)
        &&& frames_ok(self.graph@, self.frames@)
        &&& running_ok(self.graph@, self.done@, self.running)
        &&& frames_done(self.done@, self.frames@)
        &&& inputs_traced(graph_edges(self.graph@), self.done@, self.inbox@)
        &&& flows_fed(graph_edges(self.graph@), self.done@, self.delivered@, self.frames@)
        &&& deliveries_recorded(self.delivered@, self.inbox@)
    }

    /// Once the start agent's outcome is known and it neither failed nor
    /// timed out, its answer is the first result: a run whose result is not an
    /// error holds the start agent's answer, whatever became of the others.
    pub proof fn lemma_start_completed(&self)
        requires
            self.inv(),
            !self.spec_start_pending(),
            self.spec_start_error() is None,
        ensures
            self.spec_done().len() > 0,
            self.spec_done()[0].0 as nat == self.spec_start(),
            self.spec_done()[0].1 is Ok,
    {
        assert(self.start_tracked());
    }

    /// During a run no agent has two results: each agent runs at most once.
    pub proof fn lemma_each_agent_once(&self)
        requires
            self.inv(),
        ensures
            forall|i: int, j: int|
                0 <= i < j < self.spec_done().len() ==> self.spec_done()[i].0 != self.spec_done()[j].0,
            self.spec_running() matches Some(n) ==> !has_result(self.spec_done(), n as nat),
    {
    }

    /// Every input handed to an agent travelled along a flow from an agent
    /// that completed, and is that agent's output unless the flow transforms it.
    pub proof fn lemma_inputs_come_from_completed_sources(&self)
        requires
            self.inv(),
        ensures
            inputs_traced(graph_edges(self.spec_graph()), self.spec_done(), self.spec_inbox()),
    {
    }

    /// Whether `n` already has a result.
    fn result_exists(&self, n: usize) -> (r: bool)
        ensures
            r == has_result(self.done@, n as nat),
    {
        let mut i: usize = 0;
        while i < self.done.len()
            invariant
                i <= self.done.len(),
                forall|j: int| 0 <= j < i ==> self.done@[j].0 != n,
            decreases self.done.len() - i,
        {
            if self.done[i].0 == n {
                return true;
            }
            i = i + 1;
        }
        false
    }

    /// Whether the flow from `s` to `t` has delivered.
    fn is_delivered_flow(&self, s: usize, t: usize) -> (r: bool)
        ensures
            r == exists|i: int| 0 <= i < self.delivered.len() && self.delivered@[i].0 == s && self.delivered@[i].1 == t,
    {
        let mut i: usize = 0;
        while i < self.delivered.len()
            invariant
                i <= self.delivered.len(),
                forall|j: int| 0 <= j < i ==> !(self.delivered@[j].0 == s && self.delivered@[j].1 == t),
            decreases self.delivered.len() - i,
        {
            if self.delivered[i].0 == s && self.delivered[i].1 == t {
                return true;
            }
            i = i + 1;
        }
        false
    }

    /// The lines of every input delivered to `t`.
    fn received_for(&self, dag: &DAGWorkflow, t: usize) -> (r: String)
        requires
            inbox_ok(self.graph@, self.inbox@),
            dag.wf(),
            dag.graph() == self.graph@,
        ensures
            r@ == received_text(dag.nodes(), self.inbox@, t as nat),
    {
        let mut text = String::new();
        let mut i: usize = 0;
        while i < self.inbox.len()
            invariant
                inbox_ok(self.graph@, self.inbox@),
                dag.wf(),
                dag.graph() == self.graph@,
                i <= self.inbox.len(),
                text@ == received_text(dag.nodes(), self.inbox@.take(i as int), t as nat),
            decreases self.inbox.len() - i,
        {
            let ghost before = text@;
            if self.inbox[i].0 == t {
                proof {
                    assert(dag.nodes().contains_key(self.inbox@[i as int].1 as nat));
                }
                let src = match graph_node_weight(&dag.workflow, self.inbox[i].1) {
                    Some(x) => x,
                    None => {
                        return text;
                    },
                };
                text.append("[From ");
                text.append(src.as_str());
                text.append("] ");
                text.append(self.inbox[i].2.as_str());
                text.append("\n");
            }
            proof {
                let tk = self.inbox@.take(i as int + 1);
                assert(tk.drop_last() =~= self.inbox@.take(i as int));
                assert(tk.last() == self.inbox@[i as int]);
                assert(text@ =~= received_text(dag.nodes(), tk, t as nat));
            }
            i = i + 1;
        }
        proof {
            assert(self.inbox@.take(self.inbox.len() as int) =~= self.inbox@);
        }
        text
    }

    /// Whether every flow into `t` has delivered.
    fn ready(&self, dag: &DAGWorkflow, t: usize) -> (r: bool)
        requires
            dag.wf(),
            dag.graph() == self.graph@,
            t < u32::MAX,
        ensures
            r == all_delivered(dag.edges(), self.delivered@, t as nat),
    {
        let ins = graph_in_edges(&dag.workflow, t);
        let mut i: usize = 0;
        while i < ins.len()
            invariant
                dag.wf(),
                i <= ins.len(),
                forall|j: int|
                    0 <= j < ins.len() ==> dag.edges().contains_key(#[trigger] ins[j] as nat)
                        && dag.edges()[ins[j] as nat].target == t,
                forall|j: int|
                    0 <= j < i ==> exists|k: int|
                        0 <= k < self.delivered.len() && self.delivered@[k].0 == dag.edges()[#[trigger] ins[j] as nat].source
                            && self.delivered@[k].1 == t,
            decreases ins.len() - i,
        {
            proof {
                assert(dag.edges().contains_key(ins[i as int] as nat));
            }
            let (s, _t) = match graph_edge_endpoints(&dag.workflow, ins[i]) {
                Some(p) => p,
                None => {
                    return false;
                },
            };
            if !self.is_delivered_flow(s, t) {
                proof {
                    assert(!all_delivered(dag.edges(), self.delivered@, t as nat)) by {
                        let e = ins[i as int] as nat;
                        assert(dag.edges().contains_key(e) && dag.edges()[e].target == t);
                    }
                }
                return false;
            }
            i = i + 1;
        }
        proof {
            assert forall|e: nat| #[trigger] dag.edges().contains_key(e) && dag.edges()[e].target == t as nat implies exists|k: int|
                0 <= k < self.delivered.len() && self.delivered@[k].0 == dag.edges()[e].source && self.delivered@[k].1 == t by {
                let j = choose|j: int| 0 <= j < ins.len() && ins[j] == e;
                assert(dag.edges().contains_key(ins[j] as nat));
            }
        }
        true
    }

    /// The input a flow hands on for an output: the output through the flow's
    /// transformation, if it has one.
    fn flow_input(dag: &DAGWorkflow, e: usize, output: &String) -> (r: String)
        requires
            dag.wf(),
            dag.edges().contains_key(e as nat),
        ensures
            r@ == (dag.edges()[e as nat].flow.transform_fn)(output@),
    {
        match graph_edge_weight(&dag.workflow, e) {
            Some(flow) => match &flow.transform {
                Some(tr) => tr.transform(output.clone()),
                None => output.clone(),
            },
            None => output.clone(),
        }
    }

    /// Feed the next flow of the top frame: hand the source's output, through
    /// the flow's transformation, to the flow's target, and return the target.
    fn feed(&mut self, dag: &DAGWorkflow) -> (t: usize)
        requires
            old(self).inv(),
            old(self).running is None,
            dag.wf(),
            dag.graph() == old(self).graph@,
            old(self).frames.len() > 0,
            old(self).frames@.last().next < old(self).frames@.last().edges.len(),
        ensures
            final(self).bookkeeping(),
            final(self).running is None,
            final(self).graph@ == old(self).graph@,
            final(self).done@ == old(self).done@,
            final(self).start_done == old(self).start_done,
            final(self).start_error == old(self).start_error,
            final(self).start@ == old(self).start@,
            final(self).timed_out@ == old(self).timed_out@,
            final(self).frames.len() == old(self).frames.len(),
            final(self).frames@.last().edges.len() == old(self).frames@.last().edges.len(),
            final(self).frames@.last().next == old(self).frames@.last().next + 1,
            dag.nodes().contains_key(t as nat),
            forall|t2: nat|
                #[trigger] has_input(final(self).inbox@, t2) && all_delivered(
                    graph_edges(final(self).graph@),
                    final(self).delivered@,
                    t2,
                ) && t2 != t ==> settled(final(self).done@, final(self).timed_out@, t2),
    {
        let ghost prev = self.frames@;
        let mut f = self.frames.pop().unwrap();
        proof {
            assert(prev[prev.len() - 1] == f);
        }
        let e = f.edges[f.next];
        proof {
            assert(frame_ok(self.graph@, prev[prev.len() - 1]));
            assert(dag.edges().contains_key(f.edges@[f.next as int] as nat));
            assert(e < u32::MAX);
        }
        f.next = f.next + 1;
        let src = f.node;
        let (_s, t) = match graph_edge_endpoints(&dag.workflow, e) {
            Some(p) => p,
            None => {
                return 0;
            },
        };
        let next_input = Self::flow_input(dag, e, &f.output);
        let ghost fed = f;
        let ghost delivered_before = self.delivered@;
        let ghost inbox_before = self.inbox@;
        proof {
            assert(dag.edges()[e as nat].target == t);
            assert(frames_ok(self.graph@, prev));
            assert(frames_done(self.done@, prev));
        }
        self.frames.push(f);
        self.delivered.push((src, t));
        self.inbox.push((t, src, next_input));
        proof {
            lemma_deliver(
                self.graph@,
                self.done@,
                self.timed_out@,
                delivered_before,
                inbox_before,
                prev,
                fed,
                e as nat,
                src,
                t,
                next_input,
            );
            assert(self.frames@ =~= prev.drop_last().push(fed));
            assert(dag.nodes().contains_key(t as nat));
            let edges = graph_edges(self.graph@);
            assert(frames_ok(self.graph@, self.frames@));
            assert(frames_done(self.done@, self.frames@));
            assert(inputs_traced(edges, self.done@, self.inbox@));
            assert(inbox_ok(self.graph@, self.inbox@));
            assert(flows_fed(edges, self.done@, self.delivered@, self.frames@));
            assert(deliveries_recorded(self.delivered@, self.inbox@));
        }
        t
    }

    /// Feed the pending flows depth-first until an agent becomes ready to run
    /// (every flow into it has delivered and it has no result yet) or nothing is
    /// left to feed.
    fn advance(&mut self, dag: &DAGWorkflow) -> (r: WorkflowAction)
        requires
            old(self).inv(),
            old(self).running is None,
            dag.wf(),
            dag.graph() == old(self).graph@,
        ensures
            final(self).inv(),
            final(self).graph@ == old(self).graph@,
            final(self).done@ == old(self).done@,
            final(self).start_done == old(self).start_done,
            final(self).start_error == old(self).start_error,
            final(self).start@ == old(self).start@,
            final(self).timed_out@ == old(self).timed_out@,
            r is Finished ==> final(self).frames.len() == 0 && final(self).running is None,
            r is Finished ==> ready_ones_ran(
                graph_edges(final(self).graph@),
                final(self).delivered@,
                final(self).inbox@,
                final(self).done@,
                final(self).timed_out@,
            ) && taken_flows_fed(graph_edges(final(self).graph@), final(self).done@, final(self).delivered@),
            r matches WorkflowAction::RunAgent { agent, input } ==> {
                &&& final(self).running matches Some(n)
                &&& dag.nodes()[n as nat] == agent@
                &&& !has_result(final(self).done@, n as nat)
                &&& all_delivered(dag.edges(), final(self).delivered@, n as nat)
                &&& input@ == received_text(dag.nodes(), final(self).inbox@, n as nat)
            },
    {
        loop
            invariant
                self.inv(),
                self.running is None,
                dag.wf(),
                dag.graph() == self.graph@,
                self.graph@ == old(self).graph@,
                self.done@ == old(self).done@,
                self.start_done == old(self).start_done,
                self.start_error == old(self).start_error,
                self.start@ == old(self).start@,
                self.timed_out@ == old(self).timed_out@,
            decreases self.frames.len(), if self.frames.len() > 0 {
                self.frames@.last().edges.len() - self.frames@.last().next
            } else {
                0
            },
        {
            if self.frames.len() == 0 {
                proof {
                    lemma_run_closed(
                        graph_edges(self.graph@),
                        self.delivered@,
                        self.inbox@,
                        self.done@,
                        self.timed_out@,
                        self.frames@,
                    );
                }
                return WorkflowAction::Finished;
            }
            let ghost prev = self.frames@;
            let mut f = self.frames.pop().unwrap();
            proof {
                assert(self.frames@ =~= prev.drop_last());
                assert(prev[prev.len() - 1] == f);
            }
            if f.next >= f.edges.len() {
                proof {
                    lemma_drop_spent_frame(self.graph@, self.done@, self.delivered@, prev);
                }
                continue;
            }
            self.frames.push(f);
            proof {
                assert(self.frames@ =~= prev);
            }
            let t = self.feed(dag);
            let is_ready = self.ready(dag, t);
            let already = self.result_exists(t);
            if is_ready && !already {
                let agent = match graph_node_weight(&dag.workflow, t) {
                    Some(x) => x,
                    None => {
                        return WorkflowAction::Finished;
                    },
                };
                let input = self.received_for(dag, t);
                self.running = Some(t);
                proof {
                    let edges = graph_edges(self.graph@);
                    assert forall|t2: nat|
                        #[trigger] has_input(self.inbox@, t2) && all_delivered(edges, self.delivered@, t2) implies settled(
                        self.done@,
                        self.timed_out@,
                        t2,
                    ) || (self.running matches Some(r) && r as nat == t2) by {
                        if t2 != t as nat {
                        }
                    }
                    assert(running_ok(self.graph@, self.done@, self.running));
                }
                return WorkflowAction::RunAgent { agent, input };
            }
            proof {
                let edges = graph_edges(self.graph@);
                assert forall|t2: nat|
                    #[trigger] has_input(self.inbox@, t2) && all_delivered(edges, self.delivered@, t2) implies settled(
                    self.done@,
                    self.timed_out@,
                    t2,
                ) || (self.running matches Some(r) && r as nat == t2) by {
                    if t2 == t as nat {
                        assert(is_ready);
                        assert(already);
                    }
                }
            }
        }
    }

    /// Record the outcome of the agent that was asked to run, then continue the
    /// propagation. A completed agent feeds each of its outgoing flows whose
    /// condition holds on its output, in edge order, each through its
    /// transformation; an agent runs once every flow into it has delivered, on
    /// the lines `"[From <source>] <input>\n"` of what was delivered. A failure
    /// is recorded and feeds nothing; a timeout is not recorded as a result.
    /// Every input delivered came from an agent that completed, along a flow
    /// whose condition holds on that agent's output, and is that output
    /// through the flow's transformation. When the run finishes, every agent
    /// that received all its inputs has run, and every flow out of a completed
    /// agent whose condition holds on its output has delivered.
    pub fn agent_finished(&mut self, dag: &DAGWorkflow, outcome: AgentOutcome) -> (r: WorkflowAction)
        requires
            old(self).inv(),
            old(self).spec_running() is Some,
            dag.wf(),
            dag.graph() == old(self).spec_graph(),
        ensures
            final(self).inv(),
            final(self).spec_graph() == old(self).spec_graph(),
            ({
                let n = old(self).spec_running()->0;
                let name = dag.nodes()[n as nat];
                match outcome {
                    AgentOutcome::Completed(out) => final(self).spec_done() == old(self).spec_done().push(
                        (n, Ok(out)),
                    ),
                    AgentOutcome::Failed(m) => {
                        &&& final(self).spec_done().len() == old(self).spec_done().len() + 1
                        &&& final(self).spec_done().drop_last() == old(self).spec_done()
                        &&& final(self).spec_done().last().0 == n
                        &&& final(self).spec_done().last().1 matches Err(GraphWorkflowError::AgentError(x))
                        &&& x@ == m@
                    },
                    AgentOutcome::TimedOut => final(self).spec_done() == old(self).spec_done(),
                }
            }),
            !final(self).spec_start_pending(),
            final(self).spec_start() == old(self).spec_start(),
            old(self).spec_start_pending() ==> match outcome {
                AgentOutcome::Completed(_) => final(self).spec_start_error() == old(self).spec_start_error(),
                AgentOutcome::Failed(m) => final(self).spec_start_error() matches Some(
                    GraphWorkflowError::AgentError(x),
                ) && x@ == m@,
                AgentOutcome::TimedOut => final(self).spec_start_error() matches Some(GraphWorkflowError::Timeout(x))
                    && x@ == dag.nodes()[old(self).spec_running()->0 as nat],
            },
            !old(self).spec_start_pending() ==> final(self).spec_start_error() == old(self).spec_start_error(),
            final(self).spec_timed_out() == (if outcome is TimedOut {
                old(self).spec_timed_out().insert(old(self).spec_running()->0 as nat)
            } else {
                old(self).spec_timed_out()
            }),
            inputs_traced(dag.edges(), final(self).spec_done(), final(self).spec_inbox()),
            deliveries_recorded(final(self).spec_delivered(), final(self).spec_inbox()),
            r is Finished ==> final(self).spec_running() is None,
            r is Finished ==> ready_ones_ran(
                dag.edges(),
                final(self).spec_delivered(),
                final(self).spec_inbox(),
                final(self).spec_done(),
                final(self).spec_timed_out(),
            ) && taken_flows_fed(dag.edges(), final(self).spec_done(), final(self).spec_delivered()),
            r matches WorkflowAction::RunAgent { agent, input } ==> {
                &&& final(self).spec_running() matches Some(n)
                &&& dag.nodes()[n as nat] == agent@
                &&& !has_result(final(self).spec_done(), n as nat)
                &&& all_delivered(dag.edges(), final(self).spec_delivered(), n as nat)
                &&& input@ == received_text(dag.nodes(), final(self).spec_inbox(), n as nat)
            },
    {
        let n = match self.running {
            Some(n) => n,
            None => {
                return WorkflowAction::Finished;
            },
        };
        let ghost done0 = self.done@;
        let ghost timed_out0 = self.timed_out@;
        self.running = None;
        let first = !self.start_done;
        self.start_done = true;
        match outcome {
            AgentOutcome::Completed(out) => {
                let ghost before = self.done@;
                let entry: (usize, Result<String, GraphWorkflowError>) = (n, Ok(out.clone()));
                proof {
                    lemma_traced_grows(graph_edges(self.graph@), before, entry, self.inbox@, self.frames@);
                }
                self.done.push(entry);
                proof {
                    assert forall|i: int, j: int| 0 <= i < j < self.done.len() implies self.done@[i].0 != self.done@[j].0 by {
                        if j == self.done.len() - 1 {
                            assert(self.done@[i] == before[i]);
                            assert(!has_result(before, n as nat));
                        }
                    }
                    assert(dag.nodes().contains_key(n as nat));
                }
                let outs = graph_out_edges(&dag.workflow, n);
                let mut valid: Vec<usize> = Vec::new();
                let mut k: usize = 0;
                while k < outs.len()
                    invariant
                        dag.wf(),
                        k <= outs.len(),
                        forall|j: int|
                            0 <= j < outs.len() ==> dag.edges().contains_key(#[trigger] outs[j] as nat)
                                && dag.edges()[outs[j] as nat].source == n as nat,
                        forall|j: int|
                            0 <= j < valid.len() ==> dag.edges().contains_key(#[trigger] valid[j] as nat)
                                && dag.edges()[valid[j] as nat].source == n as nat
                                && (dag.edges()[valid[j] as nat].flow.condition_fn)(out@),
                        forall|j: int|
                            #![trigger outs@[j]]
                            0 <= j < k && (dag.edges()[outs@[j] as nat].flow.condition_fn)(out@) ==> exists|m: int|
                                0 <= m < valid.len() && valid@[m] == outs@[j],
                    decreases outs.len() - k,
                {
                    proof {
                        assert(dag.edges().contains_key(outs[k as int] as nat));
                    }
                    let taken = match graph_edge_weight(&dag.workflow, outs[k]) {
                        Some(flow) => match &flow.condition {
                            Some(c) => c.holds(out.as_str()),
                            None => true,
                        },
                        None => false,
                    };
                    let ghost valid_before = valid@;
                    if taken {
                        valid.push(outs[k]);
                    }
                    proof {
                        assert forall|j: int|
                            #![trigger outs@[j]]
                            0 <= j < k + 1 && (dag.edges()[outs@[j] as nat].flow.condition_fn)(out@) implies exists|m: int|
                                0 <= m < valid.len() && valid@[m] == outs@[j] by {
                            if j < k {
                                let m = choose|m: int| 0 <= m < valid_before.len() && valid_before[m] == outs@[j];
                                assert(valid@[m] == valid_before[m]);
                            } else {
                                assert(taken);
                                assert(valid@[valid.len() - 1] == outs@[j]);
                            }
                        }
                    }
                    k = k + 1;
                }
                proof {
                    assert forall|e: nat|
                        #[trigger] dag.edges().contains_key(e) && dag.edges()[e].source == n as nat
                            && (dag.edges()[e].flow.condition_fn)(out@) implies exists|m: int|
                        0 <= m < valid.len() && valid@[m] == e by {
                        let j = choose|j: int| 0 <= j < outs.len() && outs[j] == e;
                        assert(outs@[j] == outs[j]);
                    }
                }
                let ghost prev = self.frames@;
                let ghost out_v = out@;
                let ghost valid_v = valid@;
                self.frames.push(Frame { node: n, output: out, edges: valid, next: 0 });
                proof {
                    assert forall|i: int| 0 <= i < self.frames.len() - 1 implies self.frames@[i] == prev[i] by {}
                    let last = self.done.len() - 1;
                    assert(self.done@[last].0 == n && self.done@[last].1 is Ok && self.done@[last].1->Ok_0@ == out_v);
                    assert(completed_with(self.done@, n as nat, out_v));
                    assert forall|i: int| 0 <= i < self.frames.len() implies completed_with(
                        self.done@,
                        #[trigger] self.frames@[i].node as nat,
                        self.frames@[i].output@,
                    ) by {
                        if i < prev.len() {
                            assert(self.frames@[i] == prev[i]);
                        }
                    }
                    let edges = graph_edges(self.graph@);
                    lemma_settle_running(edges, self.delivered@, self.inbox@, done0, timed_out0, n, self.done@, self.timed_out@);
                    assert(self.frames@ == prev.push(self.frames@[self.frames.len() - 1]));
                    assert(flows_fed(edges, before, self.delivered@, prev));
                    assert(self.frames@[self.frames.len() - 1].next == 0);
                    assert(self.frames@[self.frames.len() - 1].edges@ == valid_v);
                    assert(edges == dag.edges());
                    assert(entry.0 == n);
                    lemma_fed_completed(edges, before, entry, self.delivered@, prev, self.frames@[self.frames.len() - 1]);
                    assert(self.done@ == before.push(entry));
                    assert(self.inv());
                }
                let r = self.advance(dag);
                r
            },
            AgentOutcome::Failed(m) => {
                let ghost before = self.done@;
                if first {
                    self.start_error = Some(GraphWorkflowError::AgentError(owned(m.as_str())));
                }
                let err = GraphWorkflowError::AgentError(m);
                let entry: (usize, Result<String, GraphWorkflowError>) = (n, Err(err));
                proof {
                    lemma_traced_grows(graph_edges(self.graph@), before, entry, self.inbox@, self.frames@);
                }
                self.done.push(entry);
                proof {
                    assert forall|i: int, j: int| 0 <= i < j < self.done.len() implies self.done@[i].0 != self.done@[j].0 by {
                        if j == self.done.len() - 1 {
                            assert(self.done@[i] == before[i]);
                            assert(!has_result(before, n as nat));
                        }
                    }
                    assert(self.done@.drop_last() =~= before);
                    assert(dag.nodes().contains_key(n as nat));
                    let edges = graph_edges(self.graph@);
                    assert(self.done@[self.done.len() - 1].0 == n);
                    lemma_settle_running(edges, self.delivered@, self.inbox@, done0, timed_out0, n, self.done@, self.timed_out@);
                    lemma_fed_failed(edges, before, entry, self.delivered@, self.frames@);
                    assert(self.inv());
                }
                self.advance(dag)
            },
            AgentOutcome::TimedOut => {
                if first {
                    let name = match graph_node_weight(&dag.workflow, n) {
                        Some(x) => x,
                        None => String::new(),
                    };
                    self.start_error = Some(GraphWorkflowError::Timeout(name));
                }
                self.timed_out = Ghost(self.timed_out@.insert(n as nat));
                proof {
                    let edges = graph_edges(self.graph@);
                    lemma_settle_running(edges, self.delivered@, self.inbox@, done0, timed_out0, n, self.done@, self.timed_out@);
                    assert(self.inv());
                }
                self.advance(dag)
            },
        }
    }

    /// The outcome of the whole run once it has finished: the error of the
    /// start agent if it failed or timed out, else every agent's result (by
    /// agent name) in completion order.
    pub fn into_results(self, dag: &DAGWorkflow) -> (r: Result<Vec<(String, Result<String, GraphWorkflowError>)>, GraphWorkflowError>)
        requires
            self.inv(),
            dag.wf(),
            dag.graph() == self.spec_graph(),
        ensures
            self.spec_start_error() is Some ==> r == Err::<Vec<(String, Result<String, GraphWorkflowError>)>, GraphWorkflowError>(self.spec_start_error()->0),
            !self.spec_start_pending() && self.spec_start_error() is None ==> (r matches Ok(v) && v.len() > 0
                && v@[0].0@ == dag.nodes()[self.spec_start()] && v@[0].1 is Ok),
            self.spec_start_error() is None ==> (r matches Ok(v) && v.len() == self.spec_done().len() && forall|i: int|
                0 <= i < v.len() ==> (#[trigger] v@[i]).0@ == dag.nodes()[self.spec_done()[i].0 as nat]
                    && v@[i].1 == self.spec_done()[i].1),
    {
        proof {
            if !self.spec_start_pending() && self.spec_start_error() is None {
                self.lemma_start_completed();
            }
        }
        match self.start_error {
            Some(e) => Err(e),
            None => {
                let mut out: Vec<(String, Result<String, GraphWorkflowError>)> = Vec::new();
                let mut done = self.done;
                let ghost all = done@;
                let mut rev: Vec<(String, Result<String, GraphWorkflowError>)> = Vec::new();
                while done.len() > 0
                    invariant
                        dag.wf(),
                        dag.graph() == self.graph@,
                        done@ == all.take(done.len() as int),
                        done.len() <= all.len(),
                        forall|i: int| 0 <= i < all.len() ==> dag.nodes().contains_key(#[trigger] all[i].0 as nat),
                        rev.len() == all.len() - done.len(),
                        forall|i: int|
                            0 <= i < rev.len() ==> (#[trigger] rev@[i]).0@ == dag.nodes()[all[all.len() - 1 - i].0 as nat]
                                && rev@[i].1 == all[all.len() - 1 - i].1,
                    decreases done.len(),
                {
                    let (n, res) = done.pop().unwrap();
                    proof {
                        assert(all[done.len() as int] == (n, res));
                        assert(dag.nodes().contains_key(n as nat));
                    }
                    let name = match graph_node_weight(&dag.workflow, n) {
                        Some(x) => x,
                        None => String::new(),
                    };
                    rev.push((name, res));
                    proof {
                        assert(done@ =~= all.take(done.len() as int));
                    }
                }
                while rev.len() > 0
                    invariant
                        rev.len() + out.len() == all.len(),
                        forall|i: int|
                            0 <= i < rev.len() ==> (#[trigger] rev@[i]).0@ == dag.nodes()[all[all.len() - 1 - i].0 as nat]
                                && rev@[i].1 == all[all.len() - 1 - i].1,
                        forall|i: int|
                            0 <= i < out.len() ==> (#[trigger] out@[i]).0@ == dag.nodes()[all[i].0 as nat]
                                && out@[i].1 == all[i].1,
                    decreases rev.len(),
                {
                    let x = rev.pop().unwrap();
                    out.push(x);
                }
                Ok(out)
            },
        }
    }
}

impl DAGWorkflow {
    /// Start executing the workflow from `start_agent` on `input`: the caller is
    /// asked to run the start agent first. Fails if the start agent is not
    /// registered.
    pub fn start_workflow(&self, start_agent: &str, input: String) -> (r: Result<(WorkflowRun, WorkflowAction), GraphWorkflowError>)
        requires
            self.wf(),
        ensures
            !self.is_registered(start_agent@) ==> (r matches Err(GraphWorkflowError::AgentNotFound(m))
                && m@ == start_not_found(start_agent@)),
            self.is_registered(start_agent@) ==> (r matches Ok((run, action)) && {
                &&& run.inv()
                &&& run.spec_graph() == self.graph()
                &&& run.spec_done().len() == 0
                &&& run.spec_timed_out() == Set::<nat>::empty()
                &&& run.spec_start_pending()
                &&& run.spec_start_error() is None
                &&& run.spec_start() == self.node_of(start_agent@)
                &&& run.spec_running() == Some(self.node_of(start_agent@) as usize)
                &&& action matches WorkflowAction::RunAgent { agent, input: i } && agent@ == start_agent@ && i@ == input@
            }),
    {
        let i = match self.find_registered(start_agent) {
            Some(i) => i,
            None => {
                return Err(GraphWorkflowError::AgentNotFound(cat3("Start agent '", start_agent, "' not found")));
            },
        };
        let start_idx = self.name_to_node[i].1;
        proof {
            assert(self.nodes().contains_key(start_idx as nat));
        }
        let run = WorkflowRun {
            done: Vec::new(),
            delivered: Vec::new(),
            inbox: Vec::new(),
            frames: Vec::new(),
            running: Some(start_idx),
            start_done: false,
            start_error: None,
            start: Ghost(start_idx as nat),
            graph: Ghost(self.workflow),
            timed_out: Ghost(Set::empty()),
        };
        Ok((run, WorkflowAction::RunAgent { agent: owned(start_agent), input }))
    }
}

/// `out_edge_order(g, a)` lists each edge out of node `a` exactly once.
pub open spec fn out_edges_listed(g: WorkflowGraph, a: nat) -> bool {
    let order = out_edge_order(g, a);
    &&& order.no_duplicates()
    &&& forall|k: int|
        0 <= k < order.len() ==> graph_edges(g).contains_key(#[trigger] order[k]) && graph_edges(g)[order[k]].source
            == a
    &&& forall|e: nat| #[trigger] graph_edges(g).contains_key(e) && graph_edges(g)[e].source == a ==> order.contains(e)
}

/// The test "is not `x`".
pub open spec fn other_than(x: Seq<char>) -> spec_fn(Seq<char>) -> bool {
    |y: Seq<char>| y != x
}

/// `names` has `x` only at position `i`: removing position `i` is filtering `x` out.
proof fn lemma_remove_filter(names: Seq<Seq<char>>, i: int, x: Seq<char>)
    requires
        0 <= i < names.len(),
        names[i] == x,
        forall|a: int, b: int| 0 <= a < b < names.len() ==> names[a] != names[b],
    ensures
        names.remove(i) == names.filter(other_than(x)),
    decreases names.len(),
{
    let f = other_than(x);
    reveal_with_fuel(Seq::filter, 1);
    if i == names.len() - 1 {
        let rest = names.drop_last();
        assert(rest =~= names.remove(i));
        lemma_filter_keeps_all(rest, x);
        assert(names.filter(f) == rest.filter(f));
    } else {
        let rest = names.drop_last();
        assert forall|a: int, b: int| 0 <= a < b < rest.len() implies rest[a] != rest[b] by {
            assert(rest[a] == names[a] && rest[b] == names[b]);
        }
        lemma_remove_filter(rest, i, x);
        assert(names.last() != x) by {
            assert(names[i] != names[names.len() - 1]);
        }
        assert(names.filter(f) == rest.filter(f).push(names.last()));
        assert(names.remove(i) =~= rest.remove(i).push(names.last()));
    }
}

proof fn lemma_filter_keeps_all(names: Seq<Seq<char>>, x: Seq<char>)
    requires
        forall|a: int| 0 <= a < names.len() ==> names[a] != x,
    ensures
        names.filter(other_than(x)) == names,
    decreases names.len(),
{
    let f = other_than(x);
    reveal_with_fuel(Seq::filter, 1);
    if names.len() > 0 {
        let rest = names.drop_last();
        lemma_filter_keeps_all(rest, x);
        assert(names.filter(f) == rest.filter(f).push(names.last()));
        assert(rest.push(names.last()) =~= names);
    }
}

/// A strictly increasing list of indices covering exactly the set `dom` has
/// as many elements as `dom`.
proof fn lemma_index_list_len(ids: Seq<usize>, dom: Set<nat>)
    requires
        dom.finite(),
        forall|i: int, j: int| 0 <= i < j < ids.len() ==> ids[i] < ids[j],
        forall|i: int| 0 <= i < ids.len() ==> dom.contains(#[trigger] ids[i] as nat),
        forall|n: nat| dom.contains(n) ==> exists|i: int| 0 <= i < ids.len() && ids[i] == n,
    ensures
        ids.len() == dom.len(),
{
    let w = ids.map_values(|x: usize| x as nat);
    assert(w.no_duplicates()) by {
        assert forall|i: int, j: int| 0 <= i < w.len() && 0 <= j < w.len() && i != j implies w[i] != w[j] by {
            if i < j {
                assert(ids[i] < ids[j]);
            } else {
                assert(ids[j] < ids[i]);
            }
        }
    }
    w.unique_seq_to_set();
    assert(w.to_set() =~= dom) by {
        assert forall|n: nat| w.to_set().contains(n) implies dom.contains(n) by {
            let i = choose|i: int| 0 <= i < w.len() && w[i] == n;
            assert(dom.contains(ids[i] as nat));
        }
        assert forall|n: nat| dom.contains(n) implies w.to_set().contains(n) by {
            let i = choose|i: int| 0 <= i < ids.len() && ids[i] == n;
            assert(w[i] == n);
        }
    }
}

/// A list without repetitions drawn from a finite set is no longer than the set.
proof fn lemma_nodup_within(v: Seq<usize>, dom: Set<nat>)
    requires
        dom.finite(),
        v.no_duplicates(),
        forall|i: int| 0 <= i < v.len() ==> dom.contains(#[trigger] v[i] as nat),
    ensures
        v.len() <= dom.len(),
{
    let w = v.map_values(|x: usize| x as nat);
    assert(w.no_duplicates()) by {
        assert forall|i: int, j: int| 0 <= i < w.len() && 0 <= j < w.len() && i != j implies w[i] != w[j] by {
            assert(v[i] != v[j]);
        }
    }
    w.unique_seq_to_set();
    assert(w.to_set().subset_of(dom)) by {
        assert forall|n: nat| w.to_set().contains(n) implies dom.contains(n) by {
            let i = choose|i: int| 0 <= i < w.len() && w[i] == n;
            assert(dom.contains(v[i] as nat));
        }
    }
    vstd::set_lib::lemma_len_subset(w.to_set(), dom);
}

/// Whether `x` occurs in `v`.
fn vec_has(v: &Vec<usize>, x: usize) -> (r: bool)
    ensures
        r == v@.contains(x),
{
    let mut i: usize = 0;
    while i < v.len()
        invariant
            i <= v.len(),
            forall|j: int| 0 <= j < i ==> v@[j] != x,
        decreases v.len() - i,
    {
        if v[i] == x {
            return true;
        }
        i = i + 1;
    }
    false
}

/// The edge list describes exactly the edges of `edges`.
pub open spec fn lists_edges(l: Seq<(usize, usize, usize)>, edges: Map<nat, EdgeView>) -> bool {
    &&& forall|i: int|
        0 <= i < l.len() ==> {
            &&& edges.contains_key(#[trigger] l[i].0 as nat)
            &&& edges[l[i].0 as nat].source == l[i].1
            &&& edges[l[i].0 as nat].target == l[i].2
        }
    &&& forall|e: nat| edges.contains_key(e) ==> exists|i: int| 0 <= i < l.len() && l[i].0 == e
}

proof fn lemma_closed_reach(
    l: Seq<(usize, usize, usize)>,
    edges: Map<nat, EdgeView>,
    v: Seq<usize>,
    start: usize,
    p: Seq<nat>,
)
    requires
        lists_edges(l, edges),
        forall|i: int| 0 <= i < l.len() ==> v.contains(#[trigger] l[i].1) ==> v.contains(l[i].2),
        v.contains(start),
        is_path(edges, p),
        p[0] == start as nat,
    ensures
        p.last() <= usize::MAX && v.contains(p.last() as usize),
    decreases p.len(),
{
    if p.len() == 1 {
        assert(p.last() == p[0]);
        assert(p.last() as usize == start);
    } else {
        let q = p.drop_last();
        assert(is_path(edges, q)) by {
            assert forall|k: int| 0 <= k < q.len() - 1 implies #[trigger] is_step(edges, q[k], q[k + 1]) by {
                assert(q[k] == p[k] && q[k + 1] == p[k + 1]);
                assert(is_step(edges, p[k], p[k + 1]));
            }
        }
        lemma_closed_reach(l, edges, v, start, q);
        let k = p.len() - 2;
        assert(is_step(edges, p[k], p[k + 1]));
        let e = choose|e: nat|
            #![trigger edges[e]]
            edges.contains_key(e) && edges[e].source == p[k] && edges[e].target == p[k + 1];
        let i = choose|i: int| 0 <= i < l.len() && l[i].0 == e;
        assert(l[i].1 as nat == p[k]);
        assert(q.last() == p[k]);
        assert(v.contains(l[i].1));
        assert(v.contains(l[i].2));
        assert(l[i].2 as nat == p.last());
    }
}

/// Every node reachable from `start` along the listed edges (including `start`).
fn reachable_from(
    l: &Vec<(usize, usize, usize)>,
    start: usize,
    Ghost(edges): Ghost<Map<nat, EdgeView>>,
    Ghost(dom): Ghost<Set<nat>>,
) -> (r: Vec<usize>)
    requires
        lists_edges(l@, edges),
        dom.finite(),
        dom.contains(start as nat),
        forall|e: nat| #[trigger] edges.contains_key(e) ==> dom.contains(edges[e].target),
    ensures
        forall|i: int| 0 <= i < r.len() ==> reaches(edges, start as nat, #[trigger] r[i] as nat),
        forall|x: usize| reaches(edges, start as nat, x as nat) ==> r@.contains(x),
{
    let mut v: Vec<usize> = Vec::new();
    v.push(start);
    proof {
        assert(v@[0] == start);
        lemma_reaches_self(edges, start as nat);
        assert(v@.no_duplicates());
        lemma_nodup_within(v@, dom);
    }
    let mut changed = true;
    while changed
        invariant
            lists_edges(l@, edges),
            dom.finite(),
            forall|e: nat| #[trigger] edges.contains_key(e) ==> dom.contains(edges[e].target),
            v@.contains(start),
            v@.no_duplicates(),
            v.len() <= dom.len(),
            forall|i: int| 0 <= i < v.len() ==> dom.contains(#[trigger] v[i] as nat),
            forall|i: int| 0 <= i < v.len() ==> reaches(edges, start as nat, #[trigger] v[i] as nat),
            !changed ==> forall|i: int| 0 <= i < l.len() ==> v@.contains(#[trigger] l@[i].1) ==> v@.contains(l@[i].2),
        decreases dom.len() - v.len() + (if changed { 1int } else { 0int }),
    {
        changed = false;
        let ghost len_before = v.len();
        let mut i: usize = 0;
        while i < l.len()
            invariant
                lists_edges(l@, edges),
                dom.finite(),
                forall|e: nat| #[trigger] edges.contains_key(e) ==> dom.contains(edges[e].target),
                i <= l.len(),
                v@.contains(start),
                v@.no_duplicates(),
                v.len() <= dom.len(),
                v.len() >= len_before,
                changed ==> v.len() > len_before,
                forall|k: int| 0 <= k < v.len() ==> dom.contains(#[trigger] v[k] as nat),
                forall|k: int| 0 <= k < v.len() ==> reaches(edges, start as nat, #[trigger] v[k] as nat),
                !changed ==> v.len() == len_before,
                !changed ==> forall|k: int| 0 <= k < i ==> v@.contains(#[trigger] l@[k].1) ==> v@.contains(l@[k].2),
            decreases l.len() - i,
        {
            let (_e, s, t) = l[i];
            if vec_has(&v, s) && !vec_has(&v, t) {
                proof {
                    let j = choose|j: int| 0 <= j < v.len() && v[j] == s;
                    assert(reaches(edges, start as nat, v[j] as nat));
                    assert(edges.contains_key(l@[i as int].0 as nat));
                    let ev = l@[i as int].0 as nat;
                    assert(edges[ev].source == s as nat && edges[ev].target == t as nat);
                    assert(is_step(edges, s as nat, t as nat));
                    lemma_reaches_step(edges, start as nat, s as nat, t as nat);
                    assert(dom.contains(t as nat));
                }
                let ghost before_push = v@;
                v.push(t);
                changed = true;
                proof {
                    assert(v@.no_duplicates()) by {
                        assert forall|a: int, b: int| 0 <= a < v.len() && 0 <= b < v.len() && a != b implies v@[a] != v@[b] by {
                            if a == v.len() - 1 || b == v.len() - 1 {
                            } else {
                            }
                        }
                    }
                    assert forall|k: int| 0 <= k < v.len() implies dom.contains(#[trigger] v[k] as nat) by {
                    }
                    lemma_nodup_within(v@, dom);
                    assert(v@.contains(start)) by {
                        let j = choose|j: int| 0 <= j < before_push.len() && before_push[j] == start;
                        assert(v@[j] == start);
                    }
                }
            }
            i = i + 1;
        }
    }
    proof {
        assert forall|x: usize| reaches(edges, start as nat, x as nat) implies v@.contains(x) by {
            let p = choose|p: Seq<nat>| #[trigger] is_path(edges, p) && p[0] == start as nat && p.last() == x as nat;
            lemma_closed_reach(l@, edges, v@, start, p);
        }
    }
    v
}

} // verus!
