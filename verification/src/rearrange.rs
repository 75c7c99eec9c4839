//! Agent rearrangement: a flow such as `"a -> b, c -> d"` runs its steps in
//! order, each step one agent (fed the conversation so far) or several agents
//! in parallel (fed the current task); `"H"` marks a point for a human and
//! runs nothing. The run is a state machine: the caller runs the agents each
//! action names and reports their answers.
use vstd::prelude::*;
use crate::text::{cat, contains_text, owned, split_on, text_eq, trim};
#[allow(unused_imports)]
use crate::text::{has_infix, split_text, trim_text};
#[allow(unused_imports)]
use crate::text::{is_space, lead_spaces, lemma_joined_holds_piece, lemma_no_infix_in_part, lemma_split_law, lemma_trim_law};
#[allow(unused_imports)]
use crate::basic_agent::json_quoted;

verus! {

/// Output format of a rearrangement's result.
pub enum OutputType {
    /// Every agent's response, one `"name: response"` line each.
    All,
    /// Only the final sequential agent's response.
    Final,
    /// The list of responses.
    List,
    /// The responses by agent name.
    Dict,
}

impl Default for OutputType {
    fn default() -> (r: OutputType)
        ensures
            r is All,
    {
        OutputType::All
    }
}

/// Errors of a rearrangement.
pub enum AgentRearrangeError {
    /// An agent failed, with its message.
    AgentError(String),
    /// Saving failed, with its message.
    FilePersistenceError(String),
    /// The flow is not usable.
    FlowValidationError(String),
    /// The flow names an agent that is not registered.
    AgentNotFound(String),
    /// The flow is malformed.
    InvalidFlowFormat(String),
    /// The flow names an agent twice.
    DuplicateAgentNames,
    /// There is no task or no agent.
    EmptyTasksOrAgents,
    /// Serialising failed, with its message.
    JsonError(String),
    /// Running failed, with its message.
    ExecutionError(String),
    /// A spawned run failed, with its message.
    JoinError(String),
}

/// The name that marks a point for a human in a flow.
pub open spec fn human_mark() -> Seq<char> {
    "H"@
}

/// The trimmed names of each step of a flow: the flow split on `"->"`, each
/// step split on `','`.
pub open spec fn flow_steps(flow: Seq<char>) -> Seq<Seq<Seq<char>>> {
    split_text(flow, "->"@).map_values(|step: Seq<char>| split_text(step, ","@).map_values(|n: Seq<char>| trim_text(n)))
}

/// Every agent name parsed from a flow is trimmed, and holds neither the step
/// separator `"->"` nor the name separator `','`.
pub proof fn lemma_flow_names(flow: Seq<char>, i: int, j: int)
    requires
        0 <= i < flow_steps(flow).len(),
        0 <= j < flow_steps(flow)[i].len(),
    ensures
        ({
            let n = flow_steps(flow)[i][j];
            &&& n.len() > 0 ==> !is_space(n[0]) && !is_space(n.last())
            &&& !has_infix(n, ","@)
            &&& !has_infix(n, "->"@)
        }),
{
    reveal_strlit(",");
    reveal_strlit("->");
    let steps = split_text(flow, "->"@);
    lemma_split_law(flow, "->"@);
    let step = steps[i];
    let pieces = split_text(step, ","@);
    lemma_split_law(step, ","@);
    let piece = pieces[j];
    let n = trim_text(piece);
    assert(flow_steps(flow)[i][j] == n);
    lemma_trim_law(piece);
    let a = lead_spaces(piece) as int;
    lemma_no_infix_in_part(piece, ","@, a, a + n.len());
    let off = lemma_joined_holds_piece(pieces, ","@, j);
    lemma_no_infix_in_part(step, "->"@, off, off + piece.len());
    lemma_no_infix_in_part(piece, "->"@, a, a + n.len());
}

/// The view of parsed steps.
pub open spec fn steps_view(v: Seq<Vec<String>>) -> Seq<Seq<Seq<char>>> {
    v.map_values(|s: Vec<String>| s@.map_values(|x: String| x@))
}

/// Split a flow into its steps and each step into its trimmed agent names.
pub fn parse_flow(flow: &str) -> (r: Vec<Vec<String>>)
    ensures
        steps_view(r@) == flow_steps(flow@),
{
    proof {
        reveal_strlit("->");
        reveal_strlit(",");
    }
    let parts = split_on(flow, "->");
    let mut steps: Vec<Vec<String>> = Vec::new();
    let mut i: usize = 0;
    while i < parts.len()
        invariant
            i <= parts.len(),
            parts@.map_values(|x: String| x@) == split_text(flow@, "->"@),
            steps.len() == i,
            forall|k: int|
                0 <= k < i ==> (#[trigger] steps@[k])@.map_values(|x: String| x@) == split_text(parts@[k]@, ","@).map_values(
                    |n: Seq<char>| trim_text(n),
                ),
        decreases parts.len() - i,
    {
        proof {
            reveal_strlit(",");
        }
        let names = split_on(parts[i].as_str(), ",");
        let mut trimmed: Vec<String> = Vec::new();
        let mut j: usize = 0;
        while j < names.len()
            invariant
                j <= names.len(),
                trimmed.len() == j,
                forall|k: int| 0 <= k < j ==> (#[trigger] trimmed@[k])@ == trim_text(names@[k]@),
            decreases names.len() - j,
        {
            trimmed.push(trim(names[j].as_str()));
            j = j + 1;
        }
        proof {
            let want = split_text(parts@[i as int]@, ","@).map_values(|n: Seq<char>| trim_text(n));
            assert(names@.map_values(|x: String| x@) =~= split_text(parts@[i as int]@, ","@));
            assert forall|k: int| 0 <= k < trimmed.len() implies trimmed@.map_values(|x: String| x@)[k] == want[k] by {
                assert(names@.map_values(|x: String| x@)[k] == names@[k]@);
            }
            assert(trimmed@.map_values(|x: String| x@) =~= want);
        }
        steps.push(trimmed);
        i = i + 1;
    }
    proof {
        let want = flow_steps(flow@);
        assert forall|k: int| 0 <= k < steps.len() implies steps_view(steps@)[k] == want[k] by {
            assert(parts@.map_values(|x: String| x@)[k] == parts@[k]@);
        }
        assert(steps_view(steps@) =~= want);
    }
    steps
}

/// `name` is among the registered names.
pub open spec fn registered(agents: Seq<String>, name: Seq<char>) -> bool {
    exists|i: int| 0 <= i < agents.len() && (#[trigger] agents[i])@ == name
}

/// The first name of the flow, in order, that is neither the human mark nor
/// registered.
pub open spec fn first_unknown(steps: Seq<Seq<Seq<char>>>, agents: Seq<String>) -> Option<Seq<char>>
    decreases steps.len(),
{
    if steps.len() == 0 {
        None
    } else {
        match first_unknown(steps.drop_last(), agents) {
            Some(n) => Some(n),
            None => first_unknown_in(steps.last(), agents),
        }
    }
}

/// The first name of a step that is neither the human mark nor registered.
pub open spec fn first_unknown_in(names: Seq<Seq<char>>, agents: Seq<String>) -> Option<Seq<char>>
    decreases names.len(),
{
    if names.len() == 0 {
        None
    } else {
        match first_unknown_in(names.drop_last(), agents) {
            Some(n) => Some(n),
            None => if names.last() != human_mark() && !registered(agents, names.last()) {
                Some(names.last())
            } else {
                None
            },
        }
    }
}

proof fn lemma_first_unknown_in_law(names: Seq<Seq<char>>, agents: Seq<String>)
    ensures
        first_unknown_in(names, agents) is None <==> forall|j: int|
            0 <= j < names.len() ==> #[trigger] names[j] == human_mark() || registered(agents, names[j]),
        first_unknown_in(names, agents) matches Some(n) ==> n != human_mark() && !registered(agents, n)
            && names.contains(n),
    decreases names.len(),
{
    if names.len() > 0 {
        let p = names.drop_last();
        let last = names.len() - 1;
        lemma_first_unknown_in_law(p, agents);
        assert forall|j: int| 0 <= j < p.len() implies #[trigger] p[j] == names[j] by {}
        match first_unknown_in(p, agents) {
            Some(n) => {
                let j = choose|j: int| 0 <= j < p.len() && p[j] == n;
                assert(names[j] == n);
                assert(!(names[j] == human_mark() || registered(agents, names[j])));
            },
            None => {
                if names.last() != human_mark() && !registered(agents, names.last()) {
                    assert(names[last] == names.last());
                } else {
                    assert forall|j: int| 0 <= j < names.len() implies #[trigger] names[j] == human_mark()
                        || registered(agents, names[j]) by {
                        if j < last {
                            assert(p[j] == names[j]);
                        }
                    }
                }
            },
        }
    }
}

/// The unknown name a flow check reports: there is none exactly when every
/// name of every step is the human mark `"H"` or a registered agent, and the
/// one reported is a name of the flow that is neither.
pub proof fn lemma_first_unknown_law(steps: Seq<Seq<Seq<char>>>, agents: Seq<String>)
    ensures
        first_unknown(steps, agents) is None <==> forall|i: int, j: int|
            0 <= i < steps.len() && 0 <= j < steps[i].len() ==> #[trigger] steps[i][j] == "H"@ || registered(
                agents,
                steps[i][j],
            ),
        first_unknown(steps, agents) matches Some(n) ==> n != "H"@ && !registered(agents, n) && exists|i: int|
            0 <= i < steps.len() && (#[trigger] steps[i]).contains(n),
    decreases steps.len(),
{
    if steps.len() > 0 {
        let p = steps.drop_last();
        let last = steps.len() - 1;
        lemma_first_unknown_law(p, agents);
        lemma_first_unknown_in_law(steps.last(), agents);
        assert(steps[last] == steps.last());
        match first_unknown(p, agents) {
            Some(n) => {
                let i = choose|i: int| 0 <= i < p.len() && (#[trigger] p[i]).contains(n);
                assert(steps[i] == p[i]);
                let j = choose|j: int| 0 <= j < p[i].len() && p[i][j] == n;
                assert(!(steps[i][j] == "H"@ || registered(agents, steps[i][j])));
            },
            None => {
                match first_unknown_in(steps.last(), agents) {
                    Some(n) => {
                        let j = choose|j: int| 0 <= j < steps.last().len() && steps.last()[j] == n;
                        assert(!(steps[last][j] == "H"@ || registered(agents, steps[last][j])));
                    },
                    None => {
                        assert forall|i: int, j: int| 0 <= i < steps.len() && 0 <= j < steps[i].len() implies
                            #[trigger] steps[i][j] == "H"@ || registered(agents, steps[i][j]) by {
                            if i < last {
                                assert(steps[i] == p[i]);
                            } else {
                                assert(steps.last()[j] == human_mark() || registered(agents, steps.last()[j]));
                            }
                        }
                    },
                }
            },
        }
    }
}

/// The message of an empty flow.
pub open spec fn empty_flow_message() -> Seq<char> {
    "Flow cannot be empty"@
}

/// The message of a flow without a `->` separator.
pub open spec fn no_arrow_message() -> Seq<char> {
    "Flow must contain '->'"@
}

fn is_registered(agents: &Vec<String>, name: &str) -> (r: bool)
    ensures
        r == registered(agents@, name@),
{
    let mut i: usize = 0;
    while i < agents.len()
        invariant
            i <= agents.len(),
            forall|k: int| 0 <= k < i ==> (#[trigger] agents@[k])@ != name@,
        decreases agents.len() - i,
    {
        if text_eq(agents[i].as_str(), name) {
            return true;
        }
        i = i + 1;
    }
    false
}

/// Check a flow against the registered agent names: an empty flow is refused,
/// then a flow without the `->` separator, then the first name that is
/// neither `"H"` nor registered.
pub fn validate_flow(flow: &str, agents: &Vec<String>) -> (r: Result<(), AgentRearrangeError>)
    ensures
        flow@.len() == 0 ==> (r matches Err(AgentRearrangeError::FlowValidationError(m)) && m@
            == empty_flow_message()),
        flow@.len() > 0 && !has_infix(flow@, "->"@) ==> (r matches Err(
            AgentRearrangeError::FlowValidationError(m),
        ) && m@ == no_arrow_message()),
        flow@.len() > 0 && has_infix(flow@, "->"@) ==> match first_unknown(flow_steps(flow@), agents@) {
            Some(n) => r matches Err(AgentRearrangeError::AgentNotFound(m)) && m@ == n,
            None => r is Ok,
        },
{
    if flow.unicode_len() == 0 {
        return Err(AgentRearrangeError::FlowValidationError(owned("Flow cannot be empty")));
    }
    if !contains_text(flow, "->") {
        return Err(AgentRearrangeError::FlowValidationError(owned("Flow must contain '->'")));
    }
    let steps = parse_flow(flow);
    let ghost sv = steps_view(steps@);
    let mut i: usize = 0;
    while i < steps.len()
        invariant
            i <= steps.len(),
            sv == steps_view(steps@),
            sv == flow_steps(flow@),
            flow@.len() > 0,
            has_infix(flow@, "->"@),
            first_unknown(sv.take(i as int), agents@) is None,
        decreases steps.len() - i,
    {
        let names = &steps[i];
        let mut j: usize = 0;
        while j < names.len()
            invariant
                i < steps.len(),
                j <= names.len(),
                *names == steps@[i as int],
                sv == steps_view(steps@),
                sv == flow_steps(flow@),
                flow@.len() > 0,
                has_infix(flow@, "->"@),
                first_unknown(sv.take(i as int), agents@) is None,
                first_unknown_in(names@.map_values(|x: String| x@).take(j as int), agents@) is None,
            decreases names.len() - j,
        {
            proof {
                let nv = names@.map_values(|x: String| x@);
                assert(nv.take(j as int + 1).drop_last() =~= nv.take(j as int));
            }
            if !text_eq(names[j].as_str(), "H") && !is_registered(agents, names[j].as_str()) {
                proof {
                    let nv = names@.map_values(|x: String| x@);
                    assert(nv.take(j as int + 1).drop_last() =~= nv.take(j as int));
                    assert(nv.take(j as int + 1).last() == names@[j as int]@);
                    assert(names@[j as int]@ != human_mark());
                    lemma_unknown_prefix(nv, agents@, j as int + 1);
                    assert(sv.take(i as int + 1).drop_last() =~= sv.take(i as int));
                    assert(sv[i as int] == nv);
                    assert(sv.take(i as int + 1).last() == nv);
                    lemma_unknown_steps_prefix(sv, agents@, i as int + 1);
                }
                return Err(AgentRearrangeError::AgentNotFound(names[j].clone()));
            }
            j = j + 1;
        }
        proof {
            let nv = names@.map_values(|x: String| x@);
            assert(nv.take(names.len() as int) =~= nv);
            assert(sv.take(i as int + 1).drop_last() =~= sv.take(i as int));
        }
        i = i + 1;
    }
    proof {
        assert(sv.take(steps.len() as int) =~= sv);
    }
    Ok(())
}

/// If a prefix of the steps already holds an unknown name, the first unknown
/// name of all steps is that one.
proof fn lemma_unknown_steps_prefix(steps: Seq<Seq<Seq<char>>>, agents: Seq<String>, k: int)
    requires
        0 <= k <= steps.len(),
        first_unknown(steps.take(k), agents) is Some,
    ensures
        first_unknown(steps, agents) == first_unknown(steps.take(k), agents),
    decreases steps.len() - k,
{
    if k < steps.len() {
        assert(steps.take(k + 1).drop_last() =~= steps.take(k));
        lemma_unknown_steps_prefix(steps, agents, k + 1);
    } else {
        assert(steps.take(k) =~= steps);
    }
}

/// If a prefix of a step already holds an unknown name, the whole step's
/// first unknown name is that one.
proof fn lemma_unknown_prefix(names: Seq<Seq<char>>, agents: Seq<String>, k: int)
    requires
        0 <= k <= names.len(),
        first_unknown_in(names.take(k), agents) is Some,
    ensures
        first_unknown_in(names, agents) == first_unknown_in(names.take(k), agents),
    decreases names.len() - k,
{
    if k < names.len() {
        assert(names.take(k + 1).drop_last() =~= names.take(k));
        lemma_unknown_prefix(names, agents, k + 1);
    } else {
        assert(names.take(k) =~= names);
    }
}

/// A batch of tasks must not be empty.
pub fn check_tasks(task_count: usize) -> (r: Result<(), AgentRearrangeError>)
    ensures
        task_count == 0 ==> (r matches Err(e) && e is EmptyTasksOrAgents),
        task_count > 0 ==> r is Ok,
{
    if task_count == 0 {
        Err(AgentRearrangeError::EmptyTasksOrAgents)
    } else {
        Ok(())
    }
}

/// The name of the conversation of a copy made to run one task of a batch.
pub fn copy_conversation_name(name: &str) -> (r: String)
    ensures
        r@ == name@ + "-clone"@,
{
    cat(name, "-clone")
}

/// The loop count a rearrangement uses: the one given, or 1 when 0 is given.
pub fn effective_max_loops(max_loops: u32) -> (r: u32)
    ensures
        r == if max_loops > 0 { max_loops } else { 1 },
{
    if max_loops > 0 {
        max_loops
    } else {
        1
    }
}

/// The conversation message that states the rules.
pub fn rules_message(rules: &str) -> (r: String)
    ensures
        r@ == "Rules: "@ + rules@,
{
    cat("Rules: ", rules)
}

/// `pairs` with `value` recorded under `key`: replaced in place where `key`
/// is already there, else appended.
pub open spec fn record(pairs: Seq<(Seq<char>, Seq<char>)>, key: Seq<char>, value: Seq<char>) -> Seq<
    (Seq<char>, Seq<char>),
> {
    if exists|i: int| 0 <= i < pairs.len() && pairs[i].0 == key {
        let i = choose|i: int| 0 <= i < pairs.len() && pairs[i].0 == key;
        pairs.update(i, (key, value))
    } else {
        pairs.push((key, value))
    }
}

/// Recording `value` under `key` in responses with distinct keys: `key`
/// then holds `value`, every response under another key stays, nothing else
/// is added, and the keys stay distinct.
pub proof fn lemma_record_response_law(pairs: Seq<(Seq<char>, Seq<char>)>, key: Seq<char>, value: Seq<char>)
    requires
        unique_keys(pairs),
    ensures
        unique_keys(record(pairs, key, value)),
        record(pairs, key, value).contains((key, value)),
        forall|j: int| 0 <= j < pairs.len() && pairs[j].0 != key ==> record(pairs, key, value).contains(#[trigger] pairs[j]),
        forall|i: int|
            0 <= i < record(pairs, key, value).len() && (#[trigger] record(pairs, key, value)[i]).0 != key
                ==> pairs.contains(record(pairs, key, value)[i]),
{
    let r = record(pairs, key, value);
    if exists|i: int| 0 <= i < pairs.len() && pairs[i].0 == key {
        let w = choose|i: int| 0 <= i < pairs.len() && pairs[i].0 == key;
        assert(r == pairs.update(w, (key, value)));
        assert(r[w] == (key, value));
        assert forall|j: int| 0 <= j < pairs.len() && pairs[j].0 != key implies r.contains(#[trigger] pairs[j]) by {
            assert(r[j] == pairs[j]);
        }
        assert forall|i: int| 0 <= i < r.len() && (#[trigger] r[i]).0 != key implies pairs.contains(r[i]) by {
            assert(r[i] == pairs[i]);
        }
        assert forall|a: int, b: int| 0 <= a < b < r.len() implies r[a].0 != r[b].0 by {
            if a != w && b != w {
                assert(pairs[a].0 != pairs[b].0);
            } else if a == w {
                assert(pairs[b].0 != pairs[w].0);
            } else {
                assert(pairs[a].0 != pairs[w].0);
            }
        }
    } else {
        assert(r == pairs.push((key, value)));
        assert(r[pairs.len() as int] == (key, value));
        assert forall|j: int| 0 <= j < pairs.len() && pairs[j].0 != key implies r.contains(#[trigger] pairs[j]) by {
            assert(r[j] == pairs[j]);
        }
        assert forall|i: int| 0 <= i < r.len() && (#[trigger] r[i]).0 != key implies pairs.contains(r[i]) by {
            assert(r[i] == pairs[i]);
        }
        assert forall|a: int, b: int| 0 <= a < b < r.len() implies r[a].0 != r[b].0 by {
            if b < pairs.len() {
                assert(pairs[a].0 != pairs[b].0);
            }
        }
    }
}

/// No key occurs twice.
pub open spec fn unique_keys(pairs: Seq<(Seq<char>, Seq<char>)>) -> bool {
    forall|i: int, j: int| 0 <= i < j < pairs.len() ==> pairs[i].0 != pairs[j].0
}

pub open spec fn pairs_view(v: Seq<(String, String)>) -> Seq<(Seq<char>, Seq<char>)> {
    v.map_values(|p: (String, String)| (p.0@, p.1@))
}

proof fn lemma_record_found(pairs: Seq<(Seq<char>, Seq<char>)>, key: Seq<char>, value: Seq<char>, i: int)
    requires
        unique_keys(pairs),
        0 <= i < pairs.len(),
        pairs[i].0 == key,
    ensures
        record(pairs, key, value) == pairs.update(i, (key, value)),
        unique_keys(pairs.update(i, (key, value))),
{
    assert(exists|k: int| 0 <= k < pairs.len() && pairs[k].0 == key);
    let j = choose|k: int| 0 <= k < pairs.len() && pairs[k].0 == key;
    assert(j == i) by {
        if j < i {
            assert(pairs[j].0 != pairs[i].0);
        } else if j > i {
            assert(pairs[i].0 != pairs[j].0);
        }
    }
    let u = pairs.update(i, (key, value));
    assert forall|a: int, b: int| 0 <= a < b < u.len() implies u[a].0 != u[b].0 by {
        assert(pairs[a].0 != pairs[b].0);
    }
}

proof fn lemma_record_absent(pairs: Seq<(Seq<char>, Seq<char>)>, key: Seq<char>, value: Seq<char>)
    requires
        unique_keys(pairs),
        forall|k: int| 0 <= k < pairs.len() ==> pairs[k].0 != key,
    ensures
        record(pairs, key, value) == pairs.push((key, value)),
        unique_keys(pairs.push((key, value))),
{
    let u = pairs.push((key, value));
    assert forall|a: int, b: int| 0 <= a < b < u.len() implies u[a].0 != u[b].0 by {
        if b < pairs.len() {
            assert(pairs[a].0 != pairs[b].0);
        }
    }
}

/// Record `value` under `key` in a response map.
pub fn record_response(map: &mut Vec<(String, String)>, key: String, value: String)
    requires
        unique_keys(pairs_view(old(map)@)),
    ensures
        unique_keys(pairs_view(final(map)@)),
        pairs_view(final(map)@) == record(pairs_view(old(map)@), key@, value@),
{
    let ghost before = pairs_view(map@);
    let mut i: usize = 0;
    while i < map.len()
        invariant
            i <= map.len(),
            pairs_view(map@) == before,
            before == pairs_view(old(map)@),
            unique_keys(before),
            forall|k: int| 0 <= k < i ==> before[k].0 != key@,
        decreases map.len() - i,
    {
        if text_eq(map[i].0.as_str(), key.as_str()) {
            proof {
                lemma_record_found(before, key@, value@, i as int);
            }
            map.set(i, (key, value));
            proof {
                assert(pairs_view(map@) =~= before.update(i as int, (key@, value@)));
            }
            return;
        }
        i = i + 1;
    }
    proof {
        lemma_record_absent(before, key@, value@);
    }
    map.push((key, value));
    proof {
        assert(pairs_view(map@) =~= before.push((key@, value@)));
    }
}

/// What the caller of a rearrangement run must do next.
pub enum RearrangeAction {
    /// Run this agent on the conversation so far, and report its answer.
    RunAgent { agent: String },
    /// Run these agents in parallel, each on `task`, and report their answers
    /// in this order.
    RunParallel { agents: Vec<String>, task: String },
    /// The run is over.
    Finished,
}

/// A step that runs nothing: a lone `"H"`.
pub open spec fn skipped_step(names: Seq<Seq<char>>) -> bool {
    names.len() == 1 && names[0] == human_mark()
}

/// The position after `(loop, step)`: the next step of the loop, or the first
/// step of the next loop.
pub open spec fn next_position(step_count: nat, loop_index: nat, step: nat) -> (nat, nat) {
    if step + 1 < step_count {
        (loop_index, step + 1)
    } else {
        (loop_index + 1, 0)
    }
}

/// The position the run waits at from `(loop, step)`: steps that run nothing
/// are passed over, across loops, until a step that runs an agent or the end
/// of the last loop.
pub open spec fn settled_position(steps: Seq<Seq<Seq<char>>>, max_loops: nat, loop_index: nat, step: nat) -> (
    nat,
    nat,
)
    decreases max_loops - loop_index, steps.len() - step,
{
    if loop_index >= max_loops || step >= steps.len() {
        (loop_index, step)
    } else if skipped_step(steps[step as int]) {
        if step + 1 < steps.len() {
            settled_position(steps, max_loops, loop_index, step + 1)
        } else {
            settled_position(steps, max_loops, loop_index + 1, 0)
        }
    } else {
        (loop_index, step)
    }
}

/// A run waits only where there is work: from a step of the flow, the
/// position it settles at is a step that runs an agent, or past the last
/// loop; it never moves backwards, and it is reached within the loops.
pub proof fn lemma_settled_position_runs(steps: Seq<Seq<Seq<char>>>, max_loops: nat, loop_index: nat, step: nat)
    requires
        step < steps.len(),
        loop_index <= max_loops,
    ensures
        ({
            let (l, k) = settled_position(steps, max_loops, loop_index, step);
            &&& l == max_loops || (l < max_loops && k < steps.len() && !skipped_step(steps[k as int]))
            &&& loop_index < l || (loop_index == l && step <= k)
        }),
    decreases max_loops - loop_index, steps.len() - step,
{
    if loop_index >= max_loops {
    } else if skipped_step(steps[step as int]) {
        if step + 1 < steps.len() {
            lemma_settled_position_runs(steps, max_loops, loop_index, step + 1);
        } else if loop_index + 1 < max_loops {
            lemma_settled_position_runs(steps, max_loops, loop_index + 1, 0);
        } else {
            assert(settled_position(steps, max_loops, loop_index + 1, 0) == (loop_index + 1, 0nat));
        }
    }
}

/// The agents of a parallel step keep the step's order: a step with no names
/// runs no agent, and one more name at the end of a step adds that name at
/// the end of its agents, unless it is the human mark `"H"`, which adds nothing.
pub proof fn lemma_parallel_agents_in_order(names: Seq<Seq<char>>, x: Seq<char>)
    ensures
        parallel_agents(Seq::empty()).len() == 0,
        x != "H"@ ==> parallel_agents(names.push(x)) == parallel_agents(names).push(x),
        x == "H"@ ==> parallel_agents(names.push(x)) == parallel_agents(names),
{
    reveal(Seq::filter);
    assert(names.push(x).drop_last() =~= names);
    assert(names.push(x).last() == x);
    assert(Seq::<Seq<char>>::empty().filter(|n: Seq<char>| n != human_mark()).len() == 0);
}

/// The agents of a parallel step never include the human mark: they are the
/// step's names other than `"H"`, each of them asked for.
pub proof fn lemma_parallel_agents_skip_human(names: Seq<Seq<char>>)
    ensures
        forall|i: int| 0 <= i < parallel_agents(names).len() ==> #[trigger] parallel_agents(names)[i] != "H"@,
        forall|i: int| 0 <= i < parallel_agents(names).len() ==> names.contains(#[trigger] parallel_agents(names)[i]),
        forall|j: int| 0 <= j < names.len() && names[j] != "H"@ ==> parallel_agents(names).contains(#[trigger] names[j]),
{
    broadcast use vstd::seq_lib::group_filter_ensures;
    let pred = |n: Seq<char>| n != human_mark();
    assert forall|i: int| 0 <= i < parallel_agents(names).len() implies #[trigger] parallel_agents(names)[i] != "H"@ by {
        assert(pred(names.filter(pred)[i]));
    }
    assert forall|i: int| 0 <= i < parallel_agents(names).len() implies names.contains(
        #[trigger] parallel_agents(names)[i],
    ) by {
        let x = names.filter(pred)[i];
        assert(names.filter(pred).contains(x));
        names.lemma_filter_contains_rev(pred, x);
    }
    assert forall|j: int| 0 <= j < names.len() && names[j] != "H"@ implies parallel_agents(names).contains(
        #[trigger] names[j],
    ) by {
        assert(pred(names[j]));
        names.lemma_filter_contains(pred, j);
    }
}

/// The state of one rearrangement run.
pub struct RearrangeRun {
    steps: Vec<Vec<String>>,
    max_loops: u32,
    /// The loop being run.
    loop_index: u32,
    /// The step about to run (or running) in the loop.
    step_index: usize,
    current_task: String,
    /// The latest answer of an agent (the task itself before any).
    last_answer: String,
    responses: Vec<(String, String)>,
}

/// The agents a parallel step runs: its names other than the human mark.
pub open spec fn parallel_agents(names: Seq<Seq<char>>) -> Seq<Seq<char>> {
    names.filter(|n: Seq<char>| n != human_mark())
}

impl RearrangeRun {
    pub closed spec fn spec_steps(&self) -> Seq<Seq<Seq<char>>> {
        steps_view(self.steps@)
    }

    pub closed spec fn spec_loop(&self) -> nat {
        self.loop_index as nat
    }

    pub closed spec fn spec_step(&self) -> nat {
        self.step_index as nat
    }

    pub closed spec fn spec_max_loops(&self) -> nat {
        self.max_loops as nat
    }

    pub closed spec fn spec_current(&self) -> Seq<char> {
        self.current_task@
    }

    /// The latest answer of an agent; the task itself before any answered.
    pub closed spec fn spec_final(&self) -> Seq<char> {
        self.last_answer@
    }

    pub closed spec fn spec_responses(&self) -> Seq<(Seq<char>, Seq<char>)> {
        pairs_view(self.responses@)
    }

    pub closed spec fn wf(&self) -> bool {
        &&& self.loop_index <= self.max_loops
        &&& self.loop_index < self.max_loops ==> self.step_index < self.steps.len()
        &&& unique_keys(pairs_view(self.responses@))
    }

    /// The run waits at step `(loop, step)` with action `a`: a step of several
    /// names runs those other than `"H"` in parallel on the current task; a
    /// step of one name other than `"H"` runs that agent.
    pub open spec fn waits_on(&self, a: RearrangeAction) -> bool {
        let names = self.spec_steps()[self.spec_step() as int];
        if self.spec_loop() >= self.spec_max_loops() {
            a is Finished
        } else if names.len() > 1 {
            a matches RearrangeAction::RunParallel { agents, task } && agents@.map_values(|x: String| x@)
                == parallel_agents(names) && task@ == self.spec_current()
        } else {
            a matches RearrangeAction::RunAgent { agent } && agent@ == names[0] && names[0] != human_mark()
        }
    }

    /// A parallel step never asks to run the human mark: every agent of a
    /// `RunParallel` action is a name of the step other than `"H"`, and every
    /// such name of the step is asked for.
    pub proof fn lemma_parallel_action_skips_human(&self, a: RearrangeAction)
        requires
            self.waits_on(a),
            a is RunParallel,
        ensures
            a matches RearrangeAction::RunParallel { agents, task } && {
                let names = self.spec_steps()[self.spec_step() as int];
                &&& forall|i: int| 0 <= i < agents.len() ==> (#[trigger] agents@[i])@ != "H"@
                &&& forall|i: int| 0 <= i < agents.len() ==> names.contains((#[trigger] agents@[i])@)
                &&& forall|j: int|
                    0 <= j < names.len() && names[j] != "H"@ ==> exists|i: int|
                        0 <= i < agents.len() && (#[trigger] agents@[i])@ == names[j]
            },
    {
        let names = self.spec_steps()[self.spec_step() as int];
        lemma_parallel_agents_skip_human(names);
        match a {
            RearrangeAction::RunParallel { agents, task } => {
                let pa = parallel_agents(names);
                assert(agents@.map_values(|x: String| x@) == pa);
                assert forall|i: int| 0 <= i < agents.len() implies (#[trigger] agents@[i])@ != "H"@ by {
                    assert(pa[i] == agents@[i]@);
                }
                assert forall|i: int| 0 <= i < agents.len() implies names.contains((#[trigger] agents@[i])@) by {
                    assert(pa[i] == agents@[i]@);
                }
                assert forall|j: int| 0 <= j < names.len() && names[j] != "H"@ implies exists|i: int|
                    0 <= i < agents.len() && (#[trigger] agents@[i])@ == names[j] by {
                    assert(pa.contains(names[j]));
                    let i = choose|i: int| 0 <= i < pa.len() && pa[i] == names[j];
                    assert(agents@[i]@ == pa[i]);
                }
            },
            _ => {},
        }
    }

    /// Start running `task` through a flow already checked with
    /// `validate_flow`, `max_loops` times (see `effective_max_loops`).
    pub fn start(flow: &str, max_loops: u32, task: String) -> (r: (RearrangeRun, RearrangeAction))
        ensures
            r.0.wf(),
            r.0.spec_steps() == flow_steps(flow@),
            r.0.spec_max_loops() == max_loops,
            r.0.spec_responses().len() == 0,
            r.0.spec_current() == task@,
            r.0.spec_final() == task@,
            (r.0.spec_loop(), r.0.spec_step()) == settled_position(flow_steps(flow@), max_loops as nat, 0, 0),
            r.0.waits_on(r.1),
    {
        let steps = parse_flow(flow);
        proof {
            lemma_split_nonempty(flow@, "->"@);
            let parts = split_text(flow@, "->"@);
            assert(steps_view(steps@).len() == parts.len());
            assert forall|k: int| 0 <= k < steps.len() implies (#[trigger] steps@[k]).len() > 0 by {
                lemma_split_nonempty(parts[k], ","@);
                assert(steps_view(steps@)[k] == flow_steps(flow@)[k]);
                assert(steps_view(steps@)[k].len() == steps@[k]@.len());
            }
        }
        let mut run = RearrangeRun {
            steps,
            max_loops,
            loop_index: 0,
            step_index: 0,
            last_answer: task.clone(),
            current_task: task,
            responses: Vec::new(),
        };
        let a = run.settle();
        (run, a)
    }

    /// Move past the steps that run nothing (a lone `"H"`), across loops,
    /// and say what to run next.
    fn settle(&mut self) -> (a: RearrangeAction)
        requires
            old(self).loop_index <= old(self).max_loops,
            old(self).loop_index < old(self).max_loops ==> old(self).step_index < old(self).steps.len(),
            unique_keys(pairs_view(old(self).responses@)),
            old(self).steps.len() > 0,
            forall|k: int| 0 <= k < old(self).steps.len() ==> (#[trigger] old(self).steps@[k]).len() > 0,
        ensures
            final(self).wf(),
            final(self).steps == old(self).steps,
            final(self).max_loops == old(self).max_loops,
            final(self).current_task == old(self).current_task,
            final(self).last_answer == old(self).last_answer,
            final(self).responses == old(self).responses,
            final(self).waits_on(a),
            (final(self).loop_index as nat, final(self).step_index as nat) == settled_position(
                steps_view(old(self).steps@),
                old(self).max_loops as nat,
                old(self).loop_index as nat,
                old(self).step_index as nat,
            ),
        decreases old(self).max_loops - old(self).loop_index, old(self).steps.len() - old(self).step_index,
    {
        if self.loop_index >= self.max_loops {
            return RearrangeAction::Finished;
        }
        let n = self.steps[self.step_index].len();
        if n > 1 {
            let agents = without_human(&self.steps[self.step_index]);
            return RearrangeAction::RunParallel { agents, task: self.current_task.clone() };
        }
        if text_eq(self.steps[self.step_index][0].as_str(), "H") {
            self.advance_position();
            return self.settle();
        }
        proof {
            reveal_strlit("H");
        }
        RearrangeAction::RunAgent { agent: self.steps[self.step_index][0].clone() }
    }

    fn advance_position(&mut self)
        requires
            old(self).loop_index < old(self).max_loops,
            old(self).step_index < old(self).steps.len(),
        ensures
            final(self).steps == old(self).steps,
            final(self).max_loops == old(self).max_loops,
            final(self).current_task == old(self).current_task,
            final(self).last_answer == old(self).last_answer,
            final(self).responses == old(self).responses,
            final(self).loop_index <= final(self).max_loops,
            final(self).loop_index < final(self).max_loops ==> final(self).step_index < final(self).steps.len(),
            if old(self).step_index + 1 < old(self).steps.len() {
                final(self).loop_index == old(self).loop_index && final(self).step_index == old(self).step_index
                    + 1
            } else {
                final(self).loop_index == old(self).loop_index + 1 && final(self).step_index == 0
            },
    {
        if self.step_index + 1 < self.steps.len() {
            self.step_index = self.step_index + 1;
        } else {
            self.step_index = 0;
            self.loop_index = self.loop_index + 1;
        }
    }

    /// The agent of a one-agent step answered: its answer is recorded under
    /// its name and becomes the current task.
    pub fn agent_answered(&mut self, answer: String) -> (a: RearrangeAction)
        requires
            old(self).wf(),
            old(self).spec_loop() < old(self).spec_max_loops(),
            old(self).spec_steps()[old(self).spec_step() as int].len() == 1,
            old(self).spec_steps().len() > 0,
            forall|k: int| 0 <= k < old(self).spec_steps().len() ==> (#[trigger] old(self).spec_steps()[k]).len() > 0,
        ensures
            final(self).wf(),
            final(self).spec_steps() == old(self).spec_steps(),
            final(self).spec_max_loops() == old(self).spec_max_loops(),
            final(self).spec_current() == answer@,
            final(self).spec_final() == answer@,
            ({
                let n = next_position(old(self).spec_steps().len(), old(self).spec_loop(), old(self).spec_step());
                (final(self).spec_loop(), final(self).spec_step()) == settled_position(
                    old(self).spec_steps(),
                    old(self).spec_max_loops(),
                    n.0,
                    n.1,
                )
            }),
            final(self).spec_responses() == record(
                old(self).spec_responses(),
                old(self).spec_steps()[old(self).spec_step() as int][0],
                answer@,
            ),
            final(self).waits_on(a),
    {
        let name = self.steps[self.step_index][0].clone();
        record_response(&mut self.responses, name, answer.clone());
        self.last_answer = answer.clone();
        self.current_task = answer;
        self.advance_position();
        proof {
            assert forall|k: int| 0 <= k < self.steps.len() implies (#[trigger] self.steps@[k]).len() > 0 by {
                assert(steps_view(self.steps@)[k].len() == self.steps@[k]@.len());
            }
        }
        self.settle()
    }

    /// The agents of a parallel step answered, in the order they were named:
    /// each answer is recorded under its agent's name, and the last one is
    /// the latest answer. The current task stays as it was.
    pub fn parallel_answered(&mut self, answers: Vec<(String, String)>) -> (a: RearrangeAction)
        requires
            old(self).wf(),
            old(self).spec_loop() < old(self).spec_max_loops(),
            old(self).spec_steps().len() > 0,
            forall|k: int| 0 <= k < old(self).spec_steps().len() ==> (#[trigger] old(self).spec_steps()[k]).len() > 0,
        ensures
            final(self).wf(),
            final(self).spec_steps() == old(self).spec_steps(),
            final(self).spec_max_loops() == old(self).spec_max_loops(),
            final(self).spec_current() == old(self).spec_current(),
            answers.len() > 0 ==> final(self).spec_final() == answers@.last().1@,
            answers.len() == 0 ==> final(self).spec_final() == old(self).spec_final(),
            ({
                let n = next_position(old(self).spec_steps().len(), old(self).spec_loop(), old(self).spec_step());
                (final(self).spec_loop(), final(self).spec_step()) == settled_position(
                    old(self).spec_steps(),
                    old(self).spec_max_loops(),
                    n.0,
                    n.1,
                )
            }),
            final(self).spec_responses() == record_all(old(self).spec_responses(), pairs_view(answers@)),
            final(self).waits_on(a),
    {
        let mut i: usize = 0;
        let ghost before = pairs_view(self.responses@);
        while i < answers.len()
            invariant
                i <= answers.len(),
                self.steps == old(self).steps,
                self.max_loops == old(self).max_loops,
                self.loop_index == old(self).loop_index,
                self.step_index == old(self).step_index,
                self.current_task == old(self).current_task,
                self.last_answer == old(self).last_answer,
                unique_keys(pairs_view(self.responses@)),
                pairs_view(self.responses@) == record_all(before, pairs_view(answers@).take(i as int)),
            decreases answers.len() - i,
        {
            proof {
                let av = pairs_view(answers@);
                assert(av.take(i as int + 1).drop_last() =~= av.take(i as int));
            }
            record_response(&mut self.responses, answers[i].0.clone(), answers[i].1.clone());
            i = i + 1;
        }
        proof {
            assert(pairs_view(answers@).take(answers.len() as int) =~= pairs_view(answers@));
        }
        if answers.len() > 0 {
            self.last_answer = answers[answers.len() - 1].1.clone();
        }
        self.advance_position();
        proof {
            assert forall|k: int| 0 <= k < self.steps.len() implies (#[trigger] self.steps@[k]).len() > 0 by {
                assert(steps_view(self.steps@)[k].len() == self.steps@[k]@.len());
            }
        }
        self.settle()
    }

    /// The recorded responses, by agent name, and the final result: the
    /// latest agent answer, or the task itself when no agent answered.
    pub fn results(self) -> (r: (Vec<(String, String)>, String))
        ensures
            pairs_view(r.0@) == self.spec_responses(),
            r.1@ == self.spec_final(),
    {
        (self.responses, self.last_answer)
    }
}

/// Record each pair in order.
pub open spec fn record_all(pairs: Seq<(Seq<char>, Seq<char>)>, new: Seq<(Seq<char>, Seq<char>)>) -> Seq<
    (Seq<char>, Seq<char>),
>
    decreases new.len(),
{
    if new.len() == 0 {
        pairs
    } else {
        record(record_all(pairs, new.drop_last()), new.last().0, new.last().1)
    }
}

/// A split always yields at least one piece, and each piece of a step split on
/// `','` yields at least one name.
proof fn lemma_split_nonempty(s: Seq<char>, sep: Seq<char>)
    ensures
        split_text(s, sep).len() > 0,
    decreases s.len(),
{
    match crate::text::find_from(s, sep, 0) {
        Some(i) => if sep.len() > 0 && i + sep.len() <= s.len() {
        } else {
        },
        None => {},
    }
}

/// The names of a step other than the human mark, in order.
fn without_human(names: &Vec<String>) -> (r: Vec<String>)
    ensures
        r@.map_values(|x: String| x@) == parallel_agents(names@.map_values(|x: String| x@)),
{
    let ghost nv = names@.map_values(|x: String| x@);
    let mut r: Vec<String> = Vec::new();
    let mut i: usize = 0;
    while i < names.len()
        invariant
            i <= names.len(),
            nv == names@.map_values(|x: String| x@),
            r@.map_values(|x: String| x@) == parallel_agents(nv.take(i as int)),
        decreases names.len() - i,
    {
        let ghost prev = r@.map_values(|x: String| x@);
        proof {
            let t = nv.take(i as int + 1);
            assert(t.drop_last() =~= nv.take(i as int));
            assert(t.last() == names@[i as int]@);
            reveal(Seq::filter);
            assert(parallel_agents(t) == if t.last() != human_mark() {
                parallel_agents(nv.take(i as int)).push(t.last())
            } else {
                parallel_agents(nv.take(i as int))
            });
        }
        if !text_eq(names[i].as_str(), "H") {
            r.push(names[i].clone());
            proof {
                assert(r@.map_values(|x: String| x@) =~= prev.push(names@[i as int]@));
            }
        }
        i = i + 1;
    }
    proof {
        assert(nv.take(names.len() as int) =~= nv);
    }
    r
}

/// The items joined with `"\n"` between them.
pub open spec fn join_lines(items: Seq<Seq<char>>) -> Seq<char>
    decreases items.len(),
{
    if items.len() == 0 {
        Seq::empty()
    } else if items.len() == 1 {
        items[0]
    } else {
        join_lines(items.drop_last()) + "\n"@ + items.last()
    }
}

/// `"name: response\n"` for each pair, in order.
pub open spec fn all_lines(pairs: Seq<(Seq<char>, Seq<char>)>) -> Seq<char>
    decreases pairs.len(),
{
    if pairs.len() == 0 {
        Seq::empty()
    } else {
        all_lines(pairs.drop_last()) + pairs.last().0 + ": "@ + pairs.last().1 + "\n"@
    }
}

/// The quoted strings, separated by commas.
pub open spec fn json_items(items: Seq<Seq<char>>) -> Seq<char>
    decreases items.len(),
{
    if items.len() == 0 {
        Seq::empty()
    } else if items.len() == 1 {
        json_quoted(items[0])
    } else {
        json_items(items.drop_last()) + ","@ + json_quoted(items.last())
    }
}

/// The text serde_json gives for a list of strings: the quoted strings,
/// separated by commas, in brackets.
pub open spec fn json_string_list(items: Seq<Seq<char>>) -> Seq<char> {
    "["@ + json_items(items) + "]"@
}

/// The text serde_json gives for an object with entry `keys[i]: values[i]`
/// for each `i` (the keys are distinct).
pub uninterp spec fn json_string_map(keys: Seq<Seq<char>>, values: Seq<Seq<char>>) -> Seq<char>;

/// `serde_json::to_string` of a list of strings. Its documentation says it
/// fails only for a value whose `Serialize` fails or for a map with
/// non-string keys, neither of which a list of strings is. Its compact
/// formatter writes the items as `json_string_list` says.
#[verifier::external_body]
fn json_list(items: &Vec<String>) -> (r: Option<String>)
    ensures
        r is Some,
        r->0@ == json_string_list(items@.map_values(|x: String| x@)),
{
    serde_json::to_string(items).ok()
}

/// `serde_json::to_string` of the string entries as an object (a `BTreeMap`
/// of the pairs, whose keys are already distinct, so the map holds every
/// pair; it lists them in its own key order). It cannot fail for string keys
/// and values; the text is serde_json's and is only named here.
#[verifier::external_body]
fn json_map(keys: &Vec<String>, values: &Vec<String>) -> (r: Option<String>)
    requires
        keys.len() == values.len(),
        forall|i: int, j: int| 0 <= i < j < keys.len() ==> keys@[i]@ != keys@[j]@,
    ensures
        r is Some,
        r->0@ == json_string_map(keys@.map_values(|x: String| x@), values@.map_values(|x: String| x@)),
{
    let m: std::collections::BTreeMap<&str, &str> = keys.iter().map(|k| k.as_str()).zip(values.iter().map(|v| v.as_str())).collect();
    serde_json::to_string(&m).ok()
}

/// The agent names (first parts) of the pairs.
pub open spec fn keys_of(pairs: Seq<(Seq<char>, Seq<char>)>) -> Seq<Seq<char>> {
    pairs.map_values(|p: (Seq<char>, Seq<char>)| p.0)
}

/// The responses (second parts) of the pairs.
pub open spec fn values_of(pairs: Seq<(Seq<char>, Seq<char>)>) -> Seq<Seq<char>> {
    pairs.map_values(|p: (Seq<char>, Seq<char>)| p.1)
}

/// `"name: response"` for each pair.
pub open spec fn entry_texts(pairs: Seq<(Seq<char>, Seq<char>)>) -> Seq<Seq<char>> {
    pairs.map_values(|p: (Seq<char>, Seq<char>)| p.0 + ": "@ + p.1)
}

/// The result text of a rearrangement for each output type.
pub open spec fn formatted_output(
    output_type: OutputType,
    return_json: bool,
    pairs: Seq<(Seq<char>, Seq<char>)>,
    final_result: Seq<char>,
) -> Seq<char> {
    match output_type {
        OutputType::All => all_lines(pairs),
        OutputType::Final => final_result,
        OutputType::List => if return_json {
            json_string_list(values_of(pairs))
        } else {
            join_lines(values_of(pairs))
        },
        OutputType::Dict => if return_json {
            json_string_map(keys_of(pairs), values_of(pairs))
        } else {
            join_lines(entry_texts(pairs))
        },
    }
}

/// Join texts with `"\n"` between them.
pub fn join_with_newlines(items: &Vec<String>) -> (r: String)
    ensures
        r@ == join_lines(items@.map_values(|x: String| x@)),
{
    let ghost v = items@.map_values(|x: String| x@);
    let mut out = String::new();
    let mut i: usize = 0;
    while i < items.len()
        invariant
            i <= items.len(),
            v == items@.map_values(|x: String| x@),
            out@ == join_lines(v.take(i as int)),
        decreases items.len() - i,
    {
        proof {
            assert(v.take(i as int + 1).drop_last() =~= v.take(i as int));
        }
        if i > 0 {
            out.append("\n");
        }
        out.append(items[i].as_str());
        proof {
            if i == 0 {
                assert(v.take(1) =~= seq![items@[0]@]);
            }
        }
        i = i + 1;
    }
    proof {
        assert(v.take(items.len() as int) =~= v);
    }
    out
}

/// Format the recorded responses (by agent name) and the final result as the
/// output type asks.
pub fn format_output(output_type: &OutputType, return_json: bool, responses: &Vec<(String, String)>, final_result: &str) -> (r: String)
    requires
        unique_keys(pairs_view(responses@)),
    ensures
        r@ == formatted_output(*output_type, return_json, pairs_view(responses@), final_result@),
{
    let ghost pv = pairs_view(responses@);
    match output_type {
        OutputType::All => {
            let mut out = String::new();
            let mut i: usize = 0;
            while i < responses.len()
                invariant
                    i <= responses.len(),
                    pv == pairs_view(responses@),
                    out@ == all_lines(pv.take(i as int)),
                decreases responses.len() - i,
            {
                proof {
                    assert(pv.take(i as int + 1).drop_last() =~= pv.take(i as int));
                }
                out.append(responses[i].0.as_str());
                out.append(": ");
                out.append(responses[i].1.as_str());
                out.append("\n");
                i = i + 1;
            }
            proof {
                assert(pv.take(responses.len() as int) =~= pv);
            }
            out
        },
        OutputType::Final => owned(final_result),
        OutputType::List => {
            let mut values: Vec<String> = Vec::new();
            let mut i: usize = 0;
            while i < responses.len()
                invariant
                    i <= responses.len(),
                    values.len() == i,
                    forall|k: int| 0 <= k < i ==> (#[trigger] values@[k])@ == responses@[k].1@,
                decreases responses.len() - i,
            {
                values.push(responses[i].1.clone());
                i = i + 1;
            }
            proof {
                assert(values@.map_values(|x: String| x@) =~= values_of(pv));
            }
            if return_json {
                match json_list(&values) {
                    Some(t) => t,
                    None => owned("[]"),
                }
            } else {
                join_with_newlines(&values)
            }
        },
        OutputType::Dict => {
            if return_json {
                let mut keys: Vec<String> = Vec::new();
                let mut values: Vec<String> = Vec::new();
                let mut i: usize = 0;
                while i < responses.len()
                    invariant
                        i <= responses.len(),
                        keys.len() == i,
                        values.len() == i,
                        forall|k: int| 0 <= k < i ==> (#[trigger] keys@[k])@ == responses@[k].0@,
                        forall|k: int| 0 <= k < i ==> (#[trigger] values@[k])@ == responses@[k].1@,
                    decreases responses.len() - i,
                {
                    keys.push(responses[i].0.clone());
                    values.push(responses[i].1.clone());
                    i = i + 1;
                }
                proof {
                    assert(keys@.map_values(|x: String| x@) =~= keys_of(pv));
                    assert(values@.map_values(|x: String| x@) =~= values_of(pv));
                    assert forall|a: int, b: int| 0 <= a < b < keys.len() implies keys@[a]@ != keys@[b]@ by {
                        assert(pv[a].0 != pv[b].0);
                    }
                }
                match json_map(&keys, &values) {
                    Some(t) => t,
                    None => owned("{}"),
                }
            } else {
                let mut entries: Vec<String> = Vec::new();
                let mut i: usize = 0;
                while i < responses.len()
                    invariant
                        i <= responses.len(),
                        entries.len() == i,
                        forall|k: int| 0 <= k < i ==> (#[trigger] entries@[k])@ == responses@[k].0@ + ": "@ + responses@[k].1@,
                    decreases responses.len() - i,
                {
                    let mut e = responses[i].0.clone();
                    e.append(": ");
                    e.append(responses[i].1.as_str());
                    entries.push(e);
                    i = i + 1;
                }
                proof {
                    assert(entries@.map_values(|x: String| x@) =~= entry_texts(pv));
                }
                join_with_newlines(&entries)
            }
        },
    }
}

} // verus!
