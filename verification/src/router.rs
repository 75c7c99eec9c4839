//! The swarm router: checks a swarm's configuration, injects the rules and
//! the collaboration prompt into every agent's system prompt, and decides
//! which kind of swarm to build.
use vstd::prelude::*;
use crate::text::{cat3, owned};

verus! {

/// The kinds of swarm a router can build.
pub enum SwarmType {
    SequentialWorkflow,
    ConcurrentWorkflow,
    AgentRearrange,
}

/// Errors of a swarm router.
pub enum SwarmRouterError {
    /// The configuration was refused.
    ValidationError(String),
    /// The sequential workflow failed, with its message.
    SequentialWorkflowError(String),
    /// The concurrent workflow failed, with its message.
    ConcurrentWorkflowError(String),
    /// The rearrangement failed, with its message.
    AgentRearrangeError(String),
}

/// The settings of a router, its agents aside.
pub struct RouterSettings {
    pub name: String,
    pub description: String,
    pub swarm_type: SwarmType,
    pub rules: Option<String>,
    pub multi_agent_collab_prompt: bool,
    pub flow: Option<String>,
    pub max_loops: Option<u32>,
}

/// The default settings: a sequential swarm named `"swarm-router"`, with the
/// collaboration prompt and no rules.
pub fn default_router_settings() -> (r: RouterSettings)
    ensures
        r.name@ == "swarm-router"@,
        r.description@ == "Routes your task to the desired swarm"@,
        r.swarm_type is SequentialWorkflow,
        r.rules is None,
        r.multi_agent_collab_prompt,
        r.flow is None,
        r.max_loops is None,
{
    RouterSettings {
        name: owned("swarm-router"),
        description: owned("Routes your task to the desired swarm"),
        swarm_type: SwarmType::SequentialWorkflow,
        rules: None,
        multi_agent_collab_prompt: true,
        flow: None,
        max_loops: None,
    }
}

/// A router needs at least one agent.
pub fn validate_agents(agent_count: usize) -> (r: Result<(), SwarmRouterError>)
    ensures
        agent_count == 0 ==> (r matches Err(SwarmRouterError::ValidationError(m)) && m@
            == "No agents provided for the swarm."@),
        agent_count > 0 ==> r is Ok,
{
    if agent_count == 0 {
        Err(SwarmRouterError::ValidationError(owned("No agents provided for the swarm.")))
    } else {
        Ok(())
    }
}

/// A system prompt, or the empty text when there is none.
pub open spec fn prompt_text(p: Option<String>) -> Seq<char> {
    match p {
        Some(s) => s@,
        None => Seq::empty(),
    }
}

/// The system prompt an agent gets from the rules and the collaboration
/// prompt: the rules after `"\n### SWARM RULES ###\n"`, then the
/// collaboration prompt after `"\n"`; untouched when neither applies.
pub open spec fn injected_prompt(p: Option<String>, rules: Option<String>, collab: bool, collab_prompt: Seq<char>) -> Option<
    Seq<char>,
> {
    let after_rules: Option<Seq<char>> = match rules {
        Some(r) => Some(prompt_text(p) + "\n### SWARM RULES ###\n"@ + r@),
        None => match p {
            Some(s) => Some(s@),
            None => None,
        },
    };
    if collab {
        Some(
            match after_rules {
                Some(s) => s,
                None => Seq::empty(),
            } + "\n"@ + collab_prompt,
        )
    } else {
        after_rules
    }
}

pub open spec fn opt_view(o: Option<String>) -> Option<Seq<char>> {
    match o {
        Some(s) => Some(s@),
        None => None,
    }
}

fn text_or_empty(p: &Option<String>) -> (r: String)
    ensures
        r@ == prompt_text(*p),
{
    match p {
        Some(s) => s.clone(),
        None => String::new(),
    }
}

/// An agent keeps its own system prompt (empty when it has none) at the
/// start of its new one. With neither rules nor the collaboration prompt it
/// is untouched; with the collaboration prompt alone it is followed by a
/// line break and the collaboration prompt; with rules, by the rules header
/// and the rules, then (with collaboration on) a line break and the
/// collaboration prompt.
pub proof fn lemma_injected_prompt_extends_own(
    p: Option<String>,
    rules: Option<String>,
    collab: bool,
    collab_prompt: Seq<char>,
)
    ensures
        injected_prompt(p, rules, collab, collab_prompt) matches Some(np) ==> prompt_text(p).len() <= np.len()
            && np.subrange(0, prompt_text(p).len() as int) == prompt_text(p),
        rules is None && !collab ==> injected_prompt(p, rules, collab, collab_prompt) == opt_view(p),
        rules is None && collab ==> injected_prompt(p, rules, collab, collab_prompt) == Some(
            prompt_text(p) + "\n"@ + collab_prompt,
        ),
        rules is Some && !collab ==> injected_prompt(p, rules, collab, collab_prompt) == Some(
            prompt_text(p) + "\n### SWARM RULES ###\n"@ + rules->0@,
        ),
        rules is Some && collab ==> injected_prompt(p, rules, collab, collab_prompt) == Some(
            prompt_text(p) + "\n### SWARM RULES ###\n"@ + rules->0@ + "\n"@ + collab_prompt,
        ),
{
    let own = prompt_text(p);
    match injected_prompt(p, rules, collab, collab_prompt) {
        Some(np) => {
            assert(np.subrange(0, own.len() as int) =~= own);
        },
        None => {},
    }
}

/// The swarm the router builds, with the settings it hands over.
pub enum SwarmPlan {
    Sequential { name: String, description: String },
    Concurrent { name: String, description: String },
    Rearrange { name: String, description: String, flow: Option<String>, max_loops: Option<u32>, rules: Option<String> },
}

/// The plan of a router: check the agents, give each agent its new system
/// prompt (see `injected_prompt`), and pick the swarm by type; a
/// rearrangement takes the flow, loop count and rules.
pub fn plan_router(settings: RouterSettings, prompts: Vec<Option<String>>, collab_prompt: &str) -> (r: Result<
    (SwarmPlan, Vec<Option<String>>),
    SwarmRouterError,
>)
    ensures
        prompts.len() == 0 ==> (r matches Err(SwarmRouterError::ValidationError(m)) && m@
            == "No agents provided for the swarm."@),
        prompts.len() > 0 ==> (r matches Ok((plan, new_prompts)) && {
            &&& new_prompts.len() == prompts.len()
            &&& forall|i: int|
                0 <= i < prompts.len() ==> opt_view(#[trigger] new_prompts@[i]) == injected_prompt(
                    prompts@[i],
                    settings.rules,
                    settings.multi_agent_collab_prompt,
                    collab_prompt@,
                )
            &&& match settings.swarm_type {
                SwarmType::SequentialWorkflow => plan matches SwarmPlan::Sequential { name, description }
                    && name == settings.name && description == settings.description,
                SwarmType::ConcurrentWorkflow => plan matches SwarmPlan::Concurrent { name, description }
                    && name == settings.name && description == settings.description,
                SwarmType::AgentRearrange => plan matches SwarmPlan::Rearrange {
                    name,
                    description,
                    flow,
                    max_loops,
                    rules,
                } && name == settings.name && description == settings.description && flow == settings.flow
                    && max_loops == settings.max_loops && rules == settings.rules,
            }
        }),
{
    if prompts.len() == 0 {
        return Err(SwarmRouterError::ValidationError(owned("No agents provided for the swarm.")));
    }
    let mut out: Vec<Option<String>> = Vec::new();
    let mut i: usize = 0;
    while i < prompts.len()
        invariant
            i <= prompts.len(),
            out.len() == i,
            forall|k: int|
                0 <= k < i ==> opt_view(#[trigger] out@[k]) == injected_prompt(
                    prompts@[k],
                    settings.rules,
                    settings.multi_agent_collab_prompt,
                    collab_prompt@,
                ),
        decreases prompts.len() - i,
    {
        let after_rules: Option<String> = match &settings.rules {
            Some(rules) => {
                let base = text_or_empty(&prompts[i]);
                Some(cat3(base.as_str(), "\n### SWARM RULES ###\n", rules.as_str()))
            },
            None => match &prompts[i] {
                Some(s) => Some(s.clone()),
                None => None,
            },
        };
        let p = if settings.multi_agent_collab_prompt {
            let base = text_or_empty(&after_rules);
            Some(cat3(base.as_str(), "\n", collab_prompt))
        } else {
            after_rules
        };
        out.push(p);
        i = i + 1;
    }
    let plan = match settings.swarm_type {
        SwarmType::SequentialWorkflow => SwarmPlan::Sequential { name: settings.name, description: settings.description },
        SwarmType::ConcurrentWorkflow => SwarmPlan::Concurrent { name: settings.name, description: settings.description },
        SwarmType::AgentRearrange => SwarmPlan::Rearrange {
            name: settings.name,
            description: settings.description,
            flow: settings.flow,
            max_loops: settings.max_loops,
            rules: settings.rules,
        },
    };
    Ok((plan, out))
}

} // verus!
