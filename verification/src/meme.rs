//! Configuration of meme agents and of a meme swarm, and the generator's
//! entry points, which do nothing.
use vstd::prelude::*;

verus! {

/// The configuration of one meme agent.
pub struct MemeAgentConfig {
    pub name: String,
    pub description: String,
    pub system_prompt: String,
}

/// The configuration of a meme swarm.
pub struct MemeSwarmConfig {
    pub name: String,
    pub description: String,
    pub agents: Vec<MemeAgentConfig>,
    pub max_loops: u32,
}

/// A generator of meme agents; its entry points do nothing.
pub struct MemeAgentGenerator {}

impl MemeAgentGenerator {
    pub fn new(name: &str, description: &str, system_prompt: &str) {
    }

    pub fn run(task: &str) {
    }

    pub fn swarm_router() {
    }
}

} // verus!
