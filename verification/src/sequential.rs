//! A sequential workflow: each agent's output becomes the input of the next.
//! The run is a state machine: the caller runs the agent each action names.
use vstd::prelude::*;
use crate::text::owned;

verus! {

/// Errors of a sequential workflow.
pub enum SequentialWorkflowError {
    /// The workflow has no agent.
    NoAgents,
    /// The task is empty.
    NoTasks,
    /// An agent failed, with its message.
    AgentError(String),
    /// Saving failed, with its message.
    PersistenceError(String),
    /// Serialising failed, with its message.
    JsonError(String),
}

/// The input handed to the next agent: `"[From Agent] <name>:\n<output>"`.
pub open spec fn handoff_text(agent: Seq<char>, output: Seq<char>) -> Seq<char> {
    "[From Agent] "@ + agent + ":\n"@ + output
}

/// The input handed to the next agent.
pub fn handoff(agent: &str, output: &str) -> (r: String)
    ensures
        r@ == handoff_text(agent@, output@),
{
    let mut s = owned("[From Agent] ");
    s.append(agent);
    s.append(":\n");
    s.append(output);
    s
}

/// What the caller of a sequential run must do next.
pub enum SequentialAction {
    /// Run the agent at this position on this input.
    RunAgent { index: usize, input: String },
    /// Every agent has run.
    Finished,
}

/// The state of a sequential run.
pub struct SequentialRun {
    agents: Vec<String>,
    next: usize,
    input: String,
    outputs: Vec<String>,
}

impl SequentialRun {
    pub closed spec fn spec_agents(&self) -> Seq<Seq<char>> {
        self.agents@.map_values(|x: String| x@)
    }

    pub closed spec fn spec_next(&self) -> nat {
        self.next as nat
    }

    pub closed spec fn spec_input(&self) -> Seq<char> {
        self.input@
    }

    pub closed spec fn spec_outputs(&self) -> Seq<Seq<char>> {
        self.outputs@.map_values(|x: String| x@)
    }

    pub closed spec fn wf(&self) -> bool {
        &&& self.next <= self.agents.len()
        &&& self.outputs.len() == self.next
    }

    /// Start running `task` through the agents named, in order: refused when
    /// there is no agent or the task is empty; else the first agent runs on
    /// the task.
    pub fn start(agents: Vec<String>, task: String) -> (r: Result<(SequentialRun, SequentialAction), SequentialWorkflowError>)
        ensures
            agents.len() == 0 ==> (r matches Err(e) && e is NoAgents),
            agents.len() > 0 && task@.len() == 0 ==> (r matches Err(e) && e is NoTasks),
            agents.len() > 0 && task@.len() > 0 ==> (r matches Ok((run, a)) && {
                &&& run.wf()
                &&& run.spec_agents() == agents@.map_values(|x: String| x@)
                &&& run.spec_next() == 0
                &&& run.spec_input() == task@
                &&& a matches SequentialAction::RunAgent { index, input } && index == 0 && input@ == task@
            }),
    {
        if agents.len() == 0 {
            return Err(SequentialWorkflowError::NoAgents);
        }
        if task.unicode_len() == 0 {
            return Err(SequentialWorkflowError::NoTasks);
        }
        let input = task.clone();
        let run = SequentialRun { agents, next: 0, input: task, outputs: Vec::new() };
        proof {
            assert(run.outputs@.map_values(|x: String| x@) =~= Seq::<Seq<char>>::empty());
        }
        Ok((run, SequentialAction::RunAgent { index: 0, input }))
    }

    /// The agent that was asked to run answered: its output, introduced by
    /// its name, is the input of the next agent.
    pub fn agent_answered(&mut self, output: String) -> (a: SequentialAction)
        requires
            old(self).wf(),
            old(self).spec_next() < old(self).spec_agents().len(),
        ensures
            final(self).wf(),
            final(self).spec_agents() == old(self).spec_agents(),
            final(self).spec_next() == old(self).spec_next() + 1,
            final(self).spec_outputs() == old(self).spec_outputs().push(output@),
            final(self).spec_input() == handoff_text(old(self).spec_agents()[old(self).spec_next() as int], output@),
            final(self).spec_next() < final(self).spec_agents().len() ==> (a matches SequentialAction::RunAgent {
                index,
                input,
            } && index == final(self).spec_next() && input@ == final(self).spec_input()),
            final(self).spec_next() == final(self).spec_agents().len() ==> a is Finished,
    {
        let i = self.next;
        self.input = handoff(self.agents[i].as_str(), output.as_str());
        self.outputs.push(output);
        self.next = i + 1;
        proof {
            assert(self.outputs@.map_values(|x: String| x@) =~= old(self).outputs@.map_values(|x: String| x@).push(
                self.outputs@[i as int]@,
            ));
        }
        if self.next < self.agents.len() {
            SequentialAction::RunAgent { index: self.next, input: self.input.clone() }
        } else {
            SequentialAction::Finished
        }
    }

    /// The outputs of the agents, in order.
    pub fn outputs(self) -> (r: Vec<String>)
        ensures
            r@.map_values(|x: String| x@) == self.spec_outputs(),
    {
        self.outputs
    }
}

} // verus!
