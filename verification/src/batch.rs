//! Batch execution settings and decisions: how many tasks run at once, when
//! a batch is refused, and how the agents' answers are collected by task.
use vstd::prelude::*;

verus! {

/// Configuration for batch execution.
pub struct BatchConfig {
    /// Maximum number of concurrent tasks.
    pub max_concurrent_tasks: Option<usize>,
    /// Whether to use the number of CPU cores detected.
    pub auto_cpu_optimization: bool,
    /// A fixed number of worker threads (overrides the CPU count when set).
    pub worker_threads: Option<usize>,
}

impl Default for BatchConfig {
    fn default() -> (r: BatchConfig)
        ensures
            r.max_concurrent_tasks is None,
            r.auto_cpu_optimization,
            r.worker_threads is None,
    {
        BatchConfig { max_concurrent_tasks: None, auto_cpu_optimization: true, worker_threads: None }
    }
}

/// Builder for `BatchConfig`, starting from the default configuration.
pub struct BatchConfigBuilder {
    config: BatchConfig,
}

impl Default for BatchConfigBuilder {
    fn default() -> (r: BatchConfigBuilder)
        ensures
            r.spec_config().max_concurrent_tasks is None,
            r.spec_config().auto_cpu_optimization,
            r.spec_config().worker_threads is None,
    {
        BatchConfigBuilder { config: BatchConfig::default() }
    }
}

impl BatchConfigBuilder {
    pub closed spec fn spec_config(&self) -> BatchConfig {
        self.config
    }

    /// Set the maximum number of concurrent tasks.
    pub fn max_concurrent_tasks(self, max: usize) -> (r: Self)
        ensures
            r.spec_config() == (BatchConfig { max_concurrent_tasks: Some(max), ..self.spec_config() }),
    {
        BatchConfigBuilder { config: BatchConfig { max_concurrent_tasks: Some(max), ..self.config } }
    }

    /// Enable or disable the use of the detected CPU count.
    pub fn auto_cpu_optimization(self, enable: bool) -> (r: Self)
        ensures
            r.spec_config() == (BatchConfig { auto_cpu_optimization: enable, ..self.spec_config() }),
    {
        BatchConfigBuilder { config: BatchConfig { auto_cpu_optimization: enable, ..self.config } }
    }

    /// Set a fixed number of worker threads.
    pub fn worker_threads(self, threads: usize) -> (r: Self)
        ensures
            r.spec_config() == (BatchConfig { worker_threads: Some(threads), ..self.spec_config() }),
    {
        BatchConfigBuilder { config: BatchConfig { worker_threads: Some(threads), ..self.config } }
    }

    /// The configuration built.
    pub fn build(self) -> (r: BatchConfig)
        ensures
            r == self.spec_config(),
    {
        self.config
    }
}

/// The number of threads used when nothing better is known.
pub const DEFAULT_THREADS: usize = 4;

/// The number of worker threads: the fixed number if set; else 4 without CPU
/// optimization; else the number of CPU cores detected (`None` when the
/// count could not be determined), or 4.
pub open spec fn optimal_threads_spec(config: BatchConfig, detected_cpus: Option<usize>) -> usize {
    match config.worker_threads {
        Some(t) => t,
        None => if !config.auto_cpu_optimization {
            DEFAULT_THREADS
        } else {
            match detected_cpus {
                Some(n) => n,
                None => DEFAULT_THREADS,
            }
        },
    }
}

/// The number of worker threads (see `optimal_threads_spec`).
pub fn optimal_threads(config: &BatchConfig, detected_cpus: Option<usize>) -> (r: usize)
    ensures
        r == optimal_threads_spec(*config, detected_cpus),
{
    if let Some(threads) = config.worker_threads {
        return threads;
    }
    if !config.auto_cpu_optimization {
        return DEFAULT_THREADS;
    }
    match detected_cpus {
        Some(n) => n,
        None => DEFAULT_THREADS,
    }
}

/// Errors of batch execution.
pub enum BatchExecutionError {
    /// An agent failed, with its message.
    AgentError(String),
    /// No agent was given.
    NoAgents,
    /// No task was given.
    NoTasks,
    /// A result could not be passed on, with the message.
    ChannelError(String),
}

/// Check a batch and say how many tasks run at once: refused without agents,
/// then without tasks; else the configured maximum, or the optimal number of
/// threads.
pub fn plan_batch(agent_count: usize, task_count: usize, config: &BatchConfig, detected_cpus: Option<usize>) -> (r: Result<
    usize,
    BatchExecutionError,
>)
    ensures
        agent_count == 0 ==> (r matches Err(e) && e is NoAgents),
        agent_count > 0 && task_count == 0 ==> (r matches Err(e) && e is NoTasks),
        agent_count > 0 && task_count > 0 ==> r == Ok::<usize, BatchExecutionError>(
            match config.max_concurrent_tasks {
                Some(m) => m,
                None => optimal_threads_spec(*config, detected_cpus),
            },
        ),
{
    if agent_count == 0 {
        return Err(BatchExecutionError::NoAgents);
    }
    if task_count == 0 {
        return Err(BatchExecutionError::NoTasks);
    }
    match config.max_concurrent_tasks {
        Some(m) => Ok(m),
        None => Ok(optimal_threads(config, detected_cpus)),
    }
}

/// What one agent made of one task.
pub struct BatchOutcome {
    pub task: String,
    pub agent: String,
    pub response: Result<String, String>,
}

/// The answer kept for a task: the agent that gave it and its response.
pub struct TaskAnswer {
    pub task: String,
    pub agent: String,
    pub response: String,
}

pub open spec fn answer_view(a: TaskAnswer) -> (Seq<char>, Seq<char>, Seq<char>) {
    (a.task@, a.agent@, a.response@)
}

/// The answers kept from outcomes in arrival order: failures are dropped, and
/// a later answer for a task replaces the earlier one in its place.
pub open spec fn kept_answers(outcomes: Seq<BatchOutcome>) -> Seq<(Seq<char>, Seq<char>, Seq<char>)>
    decreases outcomes.len(),
{
    if outcomes.len() == 0 {
        Seq::empty()
    } else {
        let prev = kept_answers(outcomes.drop_last());
        let o = outcomes.last();
        match o.response {
            Ok(resp) => if exists|i: int| 0 <= i < prev.len() && prev[i].0 == o.task@ {
                let i = choose|i: int| 0 <= i < prev.len() && prev[i].0 == o.task@;
                prev.update(i, (o.task@, o.agent@, resp@))
            } else {
                prev.push((o.task@, o.agent@, resp@))
            },
            Err(_) => prev,
        }
    }
}

/// No task occurs twice.
pub open spec fn distinct_tasks(s: Seq<(Seq<char>, Seq<char>, Seq<char>)>) -> bool {
    forall|i: int, j: int| 0 <= i < j < s.len() ==> s[i].0 != s[j].0
}

/// An answer for `task` is kept.
pub open spec fn has_task(s: Seq<(Seq<char>, Seq<char>, Seq<char>)>, task: Seq<char>) -> bool {
    exists|i: int| 0 <= i < s.len() && #[trigger] s[i].0 == task
}

/// Some agent answered `task`.
pub open spec fn answered(outcomes: Seq<BatchOutcome>, task: Seq<char>) -> bool {
    exists|j: int| 0 <= j < outcomes.len() && #[trigger] outcomes[j].task@ == task && outcomes[j].response is Ok
}

/// The batch result holds one answer for each task that some agent
/// answered, and for no other task; failed runs only leave tasks out.
pub proof fn lemma_kept_tasks(outcomes: Seq<BatchOutcome>)
    ensures
        forall|t: Seq<char>| has_task(kept_answers(outcomes), t) <==> answered(outcomes, t),
        distinct_tasks(kept_answers(outcomes)),
    decreases outcomes.len(),
{
    if outcomes.len() > 0 {
        let rest = outcomes.drop_last();
        lemma_kept_tasks(rest);
        let prev = kept_answers(rest);
        let o = outcomes.last();
        let k = kept_answers(outcomes);
        assert forall|t: Seq<char>| has_task(k, t) <==> answered(outcomes, t) by {
            if answered(rest, t) {
                let j = choose|j: int| 0 <= j < rest.len() && #[trigger] rest[j].task@ == t && rest[j].response is Ok;
                assert(outcomes[j] == rest[j]);
            }
            if answered(outcomes, t) && !answered(rest, t) {
                let j = choose|j: int| 0 <= j < outcomes.len() && #[trigger] outcomes[j].task@ == t && outcomes[j].response is Ok;
                if j < rest.len() {
                    assert(rest[j] == outcomes[j]);
                }
            }
            match o.response {
                Ok(resp) => {
                    if exists|i: int| 0 <= i < prev.len() && prev[i].0 == o.task@ {
                        let w = choose|i: int| 0 <= i < prev.len() && prev[i].0 == o.task@;
                        assert(k == prev.update(w, (o.task@, o.agent@, resp@)));
                        if has_task(prev, t) {
                            let i = choose|i: int| 0 <= i < prev.len() && #[trigger] prev[i].0 == t;
                            assert(k[i].0 == t);
                        }
                        if has_task(k, t) {
                            let i = choose|i: int| 0 <= i < k.len() && #[trigger] k[i].0 == t;
                            if i != w {
                                assert(prev[i].0 == t);
                            }
                        }
                    } else {
                        assert(k == prev.push((o.task@, o.agent@, resp@)));
                        if has_task(prev, t) {
                            let i = choose|i: int| 0 <= i < prev.len() && #[trigger] prev[i].0 == t;
                            assert(k[i].0 == t);
                        }
                        if has_task(k, t) {
                            let i = choose|i: int| 0 <= i < k.len() && #[trigger] k[i].0 == t;
                            if i < prev.len() {
                                assert(prev[i].0 == t);
                            }
                        }
                        assert(k[prev.len() as int].0 == o.task@);
                    }
                },
                Err(_) => {},
            }
        }
        assert(distinct_tasks(k)) by {
            match o.response {
                Ok(resp) => {
                    if exists|i: int| 0 <= i < prev.len() && prev[i].0 == o.task@ {
                        let w = choose|i: int| 0 <= i < prev.len() && prev[i].0 == o.task@;
                        assert forall|a: int, b: int| 0 <= a < b < k.len() implies k[a].0 != k[b].0 by {
                            assert(prev[a].0 != prev[b].0);
                        }
                    } else {
                        assert forall|a: int, b: int| 0 <= a < b < k.len() implies k[a].0 != k[b].0 by {
                            if b < prev.len() {
                                assert(prev[a].0 != prev[b].0);
                            }
                        }
                    }
                },
                Err(_) => {},
            }
        }
    }
}

/// The position of the answer for `task`, if any.
fn find_task(out: &Vec<TaskAnswer>, task: &String) -> (r: Option<usize>)
    ensures
        r matches Some(j) ==> j < out.len() && out@[j as int].task@ == task@,
        r is None ==> forall|k: int| 0 <= k < out.len() ==> out@[k].task@ != task@,
{
    let mut j: usize = 0;
    while j < out.len()
        invariant
            j <= out.len(),
            forall|k: int| 0 <= k < j ==> out@[k].task@ != task@,
        decreases out.len() - j,
    {
        if out[j].task == *task {
            return Some(j);
        }
        j = j + 1;
    }
    None
}

/// Collect the outcomes, in arrival order, into one answer per task.
pub fn collect_answers(outcomes: Vec<BatchOutcome>) -> (r: Vec<TaskAnswer>)
    ensures
        r@.map_values(|a: TaskAnswer| answer_view(a)) == kept_answers(outcomes@),
        distinct_tasks(kept_answers(outcomes@)),
{
    let mut out: Vec<TaskAnswer> = Vec::new();
    let mut i: usize = 0;
    while i < outcomes.len()
        invariant
            i <= outcomes.len(),
            out@.map_values(|a: TaskAnswer| answer_view(a)) == kept_answers(outcomes@.take(i as int)),
            distinct_tasks(kept_answers(outcomes@.take(i as int))),
        decreases outcomes.len() - i,
    {
        let ghost prev = kept_answers(outcomes@.take(i as int));
        proof {
            assert(outcomes@.take(i as int + 1).drop_last() =~= outcomes@.take(i as int));
            assert(outcomes@.take(i as int + 1).last() == outcomes@[i as int]);
        }
        let o = &outcomes[i];
        match &o.response {
            Ok(resp) => {
                let pos = find_task(&out, &o.task);
                if let Some(j) = pos {
                    proof {
                        assert(prev[j as int].0 == o.task@);
                        let w = choose|k: int| 0 <= k < prev.len() && prev[k].0 == o.task@;
                        assert(w == j as int) by {
                            if w != j as int {
                                assert(prev[w].0 == prev[j as int].0);
                            }
                        }
                    }
                    out.set(j, TaskAnswer { task: o.task.clone(), agent: o.agent.clone(), response: resp.clone() });
                    proof {
                        let u = prev.update(j as int, (o.task@, o.agent@, resp@));
                        assert(out@.map_values(|a: TaskAnswer| answer_view(a)) =~= u);
                        assert forall|a: int, b: int| 0 <= a < b < u.len() implies u[a].0 != u[b].0 by {
                            assert(prev[a].0 != prev[b].0);
                        }
                    }
                } else {
                    out.push(TaskAnswer { task: o.task.clone(), agent: o.agent.clone(), response: resp.clone() });
                    proof {
                        let u = prev.push((o.task@, o.agent@, resp@));
                        assert(out@.map_values(|a: TaskAnswer| answer_view(a)) =~= u);
                        assert forall|a: int, b: int| 0 <= a < b < u.len() implies u[a].0 != u[b].0 by {
                            if b < prev.len() {
                                assert(prev[a].0 != prev[b].0);
                            }
                        }
                    }
                }
            },
            Err(_) => {},
        }
        i = i + 1;
    }
    proof {
        assert(outcomes@.take(outcomes.len() as int) =~= outcomes@);
    }
    out
}

} // verus!
