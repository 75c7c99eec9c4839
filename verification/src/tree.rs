//! Trees of agents and a forest of trees: a task goes to one tree and, in
//! it, to one agent, both picked at random.
use vstd::prelude::*;
use crate::text::{cat3, owned, text_eq};

verus! {

/// An agent of a tree: the model it runs on, its name and system prompt.
pub struct TreeAgent {
    pub model: String,
    pub agent_name: String,
    pub system_prompt: String,
}

impl TreeAgent {
    pub fn new(model: &str, agent_name: &str, system_prompt: &str) -> (r: TreeAgent)
        ensures
            r.model@ == model@,
            r.agent_name@ == agent_name@,
            r.system_prompt@ == system_prompt@,
    {
        TreeAgent { model: owned(model), agent_name: owned(agent_name), system_prompt: owned(system_prompt) }
    }

    /// The environment variables that hold the endpoint and the key of the
    /// agent's model: DeepSeek's for `"deepseek-chat"`, OpenAI's otherwise.
    pub fn provider_vars(&self) -> (r: (String, String))
        ensures
            self.model@ == "deepseek-chat"@ ==> r.0@ == "DEEPSEEK_BASE_URL"@ && r.1@ == "DEEPSEEK_API_KEY"@,
            self.model@ != "deepseek-chat"@ ==> r.0@ == "OPENAI_BASE_URL"@ && r.1@ == "OPENAI_API_KEY"@,
    {
        if text_eq(self.model.as_str(), "deepseek-chat") {
            (owned("DEEPSEEK_BASE_URL"), owned("DEEPSEEK_API_KEY"))
        } else {
            (owned("OPENAI_BASE_URL"), owned("OPENAI_API_KEY"))
        }
    }
}

/// Where a tree agent run with this id saves its state.
pub open spec fn tree_agent_state_file(id: Seq<char>) -> Seq<char> {
    "./temp/test_tree_agent_state_"@ + id + ".json"@
}

/// The state file of a tree agent run, under a fresh random id.
pub fn new_tree_agent_state_file() -> (r: String)
    ensures
        exists|id: Seq<char>| id.len() == 36 && r@ == tree_agent_state_file(id),
{
    let id = new_uuid_text();
    cat3("./temp/test_tree_agent_state_", id.as_str(), ".json")
}

/// A named group of agents.
pub struct Tree {
    pub tree_name: String,
    pub agents: Vec<TreeAgent>,
}

/// `rand::seq::SliceRandom::choose` with `rand::thread_rng()`: one element
/// of the slice, or `None` for an empty slice. Which element is left to chance.
#[verifier::external_body]
fn pick_random<'a, T>(items: &'a [T]) -> (r: Option<&'a T>)
    ensures
        r is None <==> items@.len() == 0,
        r matches Some(x) ==> items@.contains(*x),
{
    rand::seq::SliceRandom::choose(items, &mut rand::thread_rng())
}

impl Tree {
    pub fn new(tree_name: &str, agents: Vec<TreeAgent>) -> (r: Tree)
        ensures
            r.tree_name@ == tree_name@,
            r.agents@ == agents@,
    {
        Tree { tree_name: owned(tree_name), agents }
    }

    /// The agent the task goes to: one of the tree's agents, picked at
    /// random; none when the tree has no agent.
    pub fn find_relevant_agent(&self, task: &str) -> (r: Option<&TreeAgent>)
        ensures
            self.agents.len() == 0 ==> r is None,
            self.agents.len() > 0 ==> (r matches Some(a) && self.agents@.contains(*a)),
    {
        pick_random(self.agents.as_slice())
    }
}

/// A set of trees, and the file the forest saves to.
pub struct ForestSwarm {
    pub trees: Vec<Tree>,
    pub save_file_path: String,
}

/// `uuid::Uuid::new_v4()` in its `Display` form: the hyphenated lower-case
/// form, 36 characters. The value is random.
#[verifier::external_body]
fn new_uuid_text() -> (r: String)
    ensures
        r@.len() == 36,
{
    uuid::Uuid::new_v4().to_string()
}

/// The save file of a forest with this id.
pub open spec fn forest_file(id: Seq<char>) -> Seq<char> {
    "forest_swarm_"@ + id + ".json"@
}

impl ForestSwarm {
    /// A forest of these trees, saving to `"forest_swarm_<uuid>.json"`.
    pub fn new(trees: Vec<Tree>) -> (r: ForestSwarm)
        ensures
            r.trees@ == trees@,
            exists|id: Seq<char>| id.len() == 36 && r.save_file_path@ == forest_file(id),
    {
        let id = new_uuid_text();
        let save_file_path = cat3("forest_swarm_", id.as_str(), ".json");
        ForestSwarm { trees, save_file_path }
    }

    /// The tree the task goes to: one of the trees, picked at random; none
    /// when the forest has no tree.
    pub fn find_relevant_tree(&self, task: &str) -> (r: Option<&Tree>)
        ensures
            self.trees.len() == 0 ==> r is None,
            self.trees.len() > 0 ==> (r matches Some(t) && self.trees@.contains(*t)),
    {
        pick_random(self.trees.as_slice())
    }
}

} // verus!
