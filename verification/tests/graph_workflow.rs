use std::sync::Arc;

use swarms_rs::graph_workflow::{
    AgentOutcome, DAGWorkflow, Flow, FlowCondition, FlowTransform, GraphWorkflowError, WorkflowAction,
};

struct Prefix;

impl FlowTransform for Prefix {
    // The specification lives only in verified code; this transformation is
    // not verified, so the item is never evaluated.
    fn spec_transform(&self, _output: vstd::seq::Seq<char>) -> vstd::seq::Seq<char> {
        unreachable!()
    }

    fn transform(&self, output: String) -> String {
        format!("transformed: {}", output)
    }
}

struct Contains(&'static str);

impl FlowCondition for Contains {
    // The specification lives only in verified code; this condition is not
    // verified, so the item is never evaluated.
    fn spec_holds(&self, _output: vstd::seq::Seq<char>) -> bool {
        unreachable!()
    }

    fn holds(&self, output: &str) -> bool {
        output.contains(self.0)
    }
}

fn transform_flow() -> Flow {
    Flow { transform: Some(Arc::new(Prefix)), condition: None }
}

fn condition_flow(word: &'static str) -> Flow {
    Flow { transform: None, condition: Some(Arc::new(Contains(word))) }
}

type Results = Vec<(String, Result<String, GraphWorkflowError>)>;

/// Run a workflow to its end, answering each agent with `answer`, and
/// recording every (agent, input) the workflow asked for.
fn drive(
    dag: &DAGWorkflow,
    start: &str,
    input: &str,
    answer: &dyn Fn(&str, &str) -> AgentOutcome,
    asked: &mut Vec<(String, String)>,
) -> Result<Results, GraphWorkflowError> {
    let (mut run, mut action) = dag.start_workflow(start, input.to_string())?;
    loop {
        match action {
            WorkflowAction::RunAgent { agent, input } => {
                asked.push((agent.clone(), input.clone()));
                let outcome = answer(&agent, &input);
                action = run.agent_finished(dag, outcome);
            },
            WorkflowAction::Finished => break,
        }
    }
    run.into_results(dag)
}

fn fixed(responses: &'static [(&'static str, &'static str)]) -> impl Fn(&str, &str) -> AgentOutcome {
    move |agent: &str, _input: &str| {
        for (name, response) in responses {
            if *name == agent {
                return AgentOutcome::Completed(response.to_string());
            }
        }
        AgentOutcome::Failed(format!("no agent {}", agent))
    }
}

fn get<'a>(results: &'a Results, name: &str) -> Option<&'a Result<String, GraphWorkflowError>> {
    results.iter().find(|(n, _)| n == name).map(|(_, r)| r)
}

fn connections<'a>(
    structure: &'a [(String, Vec<(String, Option<String>)>)],
    name: &str,
) -> &'a Vec<(String, Option<String>)> {
    &structure.iter().find(|(n, _)| n == name).expect("agent in structure").1
}

#[test]
fn test_dag_creation() {
    let workflow = DAGWorkflow::new("test", "Test workflow");
    assert_eq!(workflow.name(), "test");
    assert_eq!(workflow.description(), "Test workflow");
    assert_eq!(workflow.agent_count(), 0);
    assert_eq!(workflow.node_count(), 0);
    assert_eq!(workflow.edge_count(), 0);
}

#[test]
fn test_agent_registration() {
    let mut workflow = DAGWorkflow::new("test", "Test workflow");
    workflow.register_agent("agent1");

    assert_eq!(workflow.agent_count(), 1);
    assert_eq!(workflow.node_count(), 1);
    assert!(workflow.contains_agent("agent1"));
}

#[test]
fn test_agent_connection() {
    let mut workflow = DAGWorkflow::new("test", "Test workflow");
    workflow.register_agent("agent1");
    workflow.register_agent("agent2");

    let result = workflow.connect_agents("agent1", "agent2", Flow::default());
    assert!(result.is_ok());
    assert_eq!(workflow.edge_count(), 1);
}

#[test]
fn test_agent_connection_failure_nonexistent_agent() {
    let mut workflow = DAGWorkflow::new("test", "Test workflow");
    workflow.register_agent("agent1");

    let result = workflow.connect_agents("agent1", "nonexistent", Flow::default());
    assert!(matches!(result, Err(GraphWorkflowError::AgentNotFound(_))));

    let result = workflow.connect_agents("nonexistent", "agent1", Flow::default());
    assert!(matches!(result, Err(GraphWorkflowError::AgentNotFound(_))));
}

#[test]
fn test_cycle_detection() {
    let mut workflow = DAGWorkflow::new("test", "Test workflow");
    workflow.register_agent("agent1");
    workflow.register_agent("agent2");
    workflow.register_agent("agent3");

    // agent1 -> agent2 -> agent3
    let result1 = workflow.connect_agents("agent1", "agent2", Flow::default());
    assert!(result1.is_ok());
    let result2 = workflow.connect_agents("agent2", "agent3", Flow::default());
    assert!(result2.is_ok());

    // cycle it: agent3 -> agent1
    let result3 = workflow.connect_agents("agent3", "agent1", Flow::default());
    assert!(matches!(result3, Err(GraphWorkflowError::CycleDetected)));

    // edge should not be added
    assert_eq!(workflow.edge_count(), 2);
}

#[test]
fn test_agent_disconnection() {
    let mut workflow = DAGWorkflow::new("test", "Test workflow");
    workflow.register_agent("agent1");
    workflow.register_agent("agent2");

    workflow.connect_agents("agent1", "agent2", Flow::default()).unwrap();
    assert_eq!(workflow.edge_count(), 1);

    let result = workflow.disconnect_agents("agent1", "agent2");
    assert!(result.is_ok());
    assert_eq!(workflow.edge_count(), 0);
}

#[test]
fn test_agent_disconnection_failure() {
    let mut workflow = DAGWorkflow::new("test", "Test workflow");
    workflow.register_agent("agent1");
    workflow.register_agent("agent2");

    // try to disconnect non-existent edge
    let result = workflow.disconnect_agents("agent1", "agent2");
    assert!(matches!(result, Err(GraphWorkflowError::AgentNotFound(_))));

    // try to disconnect non-existent agent
    let result = workflow.disconnect_agents("nonexistent", "agent2");
    assert!(matches!(result, Err(GraphWorkflowError::AgentNotFound(_))));
}

#[test]
fn test_agent_removal() {
    let mut workflow = DAGWorkflow::new("test", "Test workflow");
    workflow.register_agent("agent1");
    workflow.register_agent("agent2");

    workflow.connect_agents("agent1", "agent2", Flow::default()).unwrap();
    assert_eq!(workflow.agent_count(), 2);
    assert_eq!(workflow.node_count(), 2);

    let result = workflow.remove_agent("agent1");
    assert!(result.is_ok());
    assert_eq!(workflow.agent_count(), 1);
    assert_eq!(workflow.node_count(), 1);
    assert!(!workflow.contains_agent("agent1"));

    assert_eq!(workflow.edge_count(), 0);
}

#[test]
fn test_agent_removal_nonexistent() {
    let mut workflow = DAGWorkflow::new("test", "Test workflow");

    let result = workflow.remove_agent("nonexistent");
    assert!(matches!(result, Err(GraphWorkflowError::AgentNotFound(_))));
}

#[test]
fn test_execute_workflow_linear() {
    let mut workflow = DAGWorkflow::new("test", "Test workflow");
    workflow.register_agent("agent1");
    workflow.register_agent("agent2");
    workflow.connect_agents("agent1", "agent2", Flow::default()).unwrap();

    let mut asked = Vec::new();
    let answer = fixed(&[("agent1", "response1"), ("agent2", "response2")]);
    let results = drive(&workflow, "agent1", "input", &answer, &mut asked).unwrap();
    assert_eq!(results.len(), 2);
    assert_eq!(get(&results, "agent1").unwrap().as_ref().unwrap(), "response1");
    assert_eq!(get(&results, "agent2").unwrap().as_ref().unwrap(), "response2");
    // the start agent gets the input; the next one what its source said
    assert_eq!(asked[0], ("agent1".to_string(), "input".to_string()));
    assert_eq!(asked[1], ("agent2".to_string(), "[From agent1] response1\n".to_string()));
}

#[test]
fn test_execute_workflow_branching() {
    let mut workflow = DAGWorkflow::new("test", "Test workflow");
    workflow.register_agent("agent1");
    workflow.register_agent("agent2");
    workflow.register_agent("agent3");
    workflow.connect_agents("agent1", "agent2", Flow::default()).unwrap();
    workflow.connect_agents("agent1", "agent3", Flow::default()).unwrap();

    let mut asked = Vec::new();
    let answer = fixed(&[("agent1", "response1"), ("agent2", "response2"), ("agent3", "response3")]);
    let results = drive(&workflow, "agent1", "input", &answer, &mut asked).unwrap();
    assert_eq!(results.len(), 3);
    assert_eq!(get(&results, "agent1").unwrap().as_ref().unwrap(), "response1");
    assert_eq!(get(&results, "agent2").unwrap().as_ref().unwrap(), "response2");
    assert_eq!(get(&results, "agent3").unwrap().as_ref().unwrap(), "response3");
}

#[test]
fn test_execute_workflow_with_transformation() {
    let mut workflow = DAGWorkflow::new("test", "Test workflow");
    workflow.register_agent("agent1");
    workflow.register_agent("agent2");
    workflow.connect_agents("agent1", "agent2", transform_flow()).unwrap();

    let mut asked = Vec::new();
    let answer = fixed(&[("agent1", "response1"), ("agent2", "response2")]);
    let results = drive(&workflow, "agent1", "input", &answer, &mut asked).unwrap();
    assert_eq!(results.len(), 2);
    assert_eq!(asked[1].1, "[From agent1] transformed: response1\n");

    let structure = workflow.get_workflow_structure();
    let agent1_connections = connections(&structure, "agent1");
    assert_eq!(agent1_connections.len(), 1);
    assert_eq!(agent1_connections[0].0, "agent2");
    assert_eq!(agent1_connections[0].1, Some("transform".to_string()));
}

#[test]
fn test_execute_workflow_with_condition_true() {
    let mut workflow = DAGWorkflow::new("test", "Test workflow");
    workflow.register_agent("agent1");
    workflow.register_agent("agent2");
    workflow.connect_agents("agent1", "agent2", condition_flow("true")).unwrap();

    let mut asked = Vec::new();
    let answer = fixed(&[("agent1", "true"), ("agent2", "executed")]);
    let results = drive(&workflow, "agent1", "input", &answer, &mut asked).unwrap();
    assert_eq!(results.len(), 2);
    assert!(get(&results, "agent1").is_some());
    assert!(get(&results, "agent2").is_some());
}

#[test]
fn test_execute_workflow_with_condition_false() {
    let mut workflow = DAGWorkflow::new("test", "Test workflow");
    workflow.register_agent("agent1");
    workflow.register_agent("agent2");
    workflow.connect_agents("agent1", "agent2", condition_flow("nonexistent")).unwrap();

    let mut asked = Vec::new();
    let answer = fixed(&[("agent1", "response1"), ("agent2", "not executed")]);
    let results = drive(&workflow, "agent1", "input", &answer, &mut asked).unwrap();
    assert_eq!(results.len(), 1);
    assert!(get(&results, "agent1").is_some());
    assert!(get(&results, "agent2").is_none());
}

#[test]
fn test_workflow_execution_start_agent_not_found() {
    let mut workflow = DAGWorkflow::new("test", "Test workflow");
    workflow.register_agent("agent1");

    let result = workflow.start_workflow("nonexistent", "input".to_string());
    assert!(matches!(result, Err(GraphWorkflowError::AgentNotFound(_))));
}

#[test]
fn test_workflow_execution_with_failing_agent() {
    let mut workflow = DAGWorkflow::new("test", "Test workflow");
    workflow.register_agent("agent1");
    workflow.register_agent("agent2");
    workflow.register_agent("agent3");
    workflow.connect_agents("agent1", "agent2", Flow::default()).unwrap();
    workflow.connect_agents("agent2", "agent3", Flow::default()).unwrap();

    let mut asked = Vec::new();
    let answer = |agent: &str, _input: &str| match agent {
        "agent1" => AgentOutcome::Completed("response1".to_string()),
        "agent2" => AgentOutcome::Failed("fail error".to_string()),
        _ => AgentOutcome::Completed("response3".to_string()),
    };
    let results = drive(&workflow, "agent1", "input", &answer, &mut asked).unwrap();
    assert_eq!(results.len(), 2);
    assert!(get(&results, "agent1").is_some());
    assert!(get(&results, "agent2").is_some());
    assert!(get(&results, "agent3").is_none());
    assert!(get(&results, "agent2").unwrap().is_err());
}

#[test]
fn test_find_execution_paths() {
    let mut workflow = DAGWorkflow::new("test", "Test workflow");
    for name in ["start", "a", "b", "c", "d"] {
        workflow.register_agent(name);
    }
    workflow.connect_agents("start", "a", Flow::default()).unwrap();
    workflow.connect_agents("start", "b", Flow::default()).unwrap();
    workflow.connect_agents("a", "c", Flow::default()).unwrap();
    workflow.connect_agents("b", "d", Flow::default()).unwrap();

    let paths = workflow.find_execution_paths("start").unwrap();
    assert_eq!(paths.len(), 2);

    let has_path1 = paths.iter().any(|p| p == &vec!["start".to_string(), "a".to_string(), "c".to_string()]);
    let has_path2 = paths.iter().any(|p| p == &vec!["start".to_string(), "b".to_string(), "d".to_string()]);
    assert!(has_path1);
    assert!(has_path2);
}

#[test]
fn test_find_execution_paths_start_agent_not_found() {
    let workflow = DAGWorkflow::new("test", "Test workflow");

    let result = workflow.find_execution_paths("nonexistent");
    assert!(matches!(result, Err(GraphWorkflowError::AgentNotFound(_))));
}

#[test]
fn test_find_execution_paths_diamond_pattern() {
    let mut workflow = DAGWorkflow::new("test", "Test workflow");
    for name in ["start", "a", "b", "end"] {
        workflow.register_agent(name);
    }
    workflow.connect_agents("start", "a", Flow::default()).unwrap();
    workflow.connect_agents("start", "b", Flow::default()).unwrap();
    workflow.connect_agents("a", "end", Flow::default()).unwrap();
    workflow.connect_agents("b", "end", Flow::default()).unwrap();

    let paths = workflow.find_execution_paths("start").unwrap();
    assert_eq!(paths.len(), 2);

    let has_path1 = paths.iter().any(|p| p == &vec!["start".to_string(), "a".to_string(), "end".to_string()]);
    let has_path2 = paths.iter().any(|p| p == &vec!["start".to_string(), "b".to_string(), "end".to_string()]);
    assert!(has_path1);
    assert!(has_path2);
}

#[test]
fn test_detect_potential_deadlocks() {
    let mut workflow = DAGWorkflow::new("test", "Test workflow");
    for name in ["a", "b", "c"] {
        workflow.register_agent(name);
    }
    workflow.connect_agents("a", "b", Flow::default()).unwrap();
    workflow.connect_agents("b", "c", Flow::default()).unwrap();

    // no cycles, should return empty vector
    let deadlocks = workflow.detect_potential_deadlocks();
    assert_eq!(deadlocks.len(), 0);

    // try to add c -> a, which should fail because it would close a cycle
    let result = workflow.connect_agents("c", "a", Flow::default());
    assert!(matches!(result, Err(GraphWorkflowError::CycleDetected)));
}

#[test]
fn test_get_workflow_structure() {
    let mut workflow = DAGWorkflow::new("test", "Test workflow");
    for name in ["a", "b", "c"] {
        workflow.register_agent(name);
    }
    workflow.connect_agents("a", "b", Flow::default()).unwrap();
    workflow.connect_agents("b", "c", transform_flow()).unwrap();

    let structure = workflow.get_workflow_structure();
    assert_eq!(structure.len(), 3);

    assert_eq!(connections(&structure, "a").len(), 1);
    assert_eq!(connections(&structure, "a")[0].0, "b");
    assert_eq!(connections(&structure, "a")[0].1, None);

    assert_eq!(connections(&structure, "b").len(), 1);
    assert_eq!(connections(&structure, "b")[0].0, "c");
    assert_eq!(connections(&structure, "b")[0].1, Some("transform".to_string()));

    assert_eq!(connections(&structure, "c").len(), 0);
}

#[test]
fn test_export_workflow_dot() {
    let mut workflow = DAGWorkflow::new("test", "Test workflow");
    workflow.register_agent("a");
    workflow.register_agent("b");
    workflow.connect_agents("a", "b", Flow::default()).unwrap();

    let dot = workflow.export_workflow_dot();

    assert!(dot.contains("digraph {"));
    assert!(dot.contains("\"a\" [label=\"a\"]"));
    assert!(dot.contains("\"b\" [label=\"b\"]"));
    assert!(dot.contains("\"a\" -> \"b\""));
    assert!(dot.contains("}"));
}

#[test]
fn test_caching_execution_results() {
    let mut workflow = DAGWorkflow::new("test", "Test workflow");
    workflow.register_agent("counter");
    let count = std::cell::Cell::new(0);
    let answer = |_agent: &str, _input: &str| {
        count.set(count.get() + 1);
        AgentOutcome::Completed(format!("Called {} times", count.get()))
    };

    let mut asked = Vec::new();
    let results1 = drive(&workflow, "counter", "input1", &answer, &mut asked).unwrap();
    assert_eq!(get(&results1, "counter").unwrap().as_ref().unwrap(), "Called 1 times");

    // a second run starts afresh and runs the agent again
    let results2 = drive(&workflow, "counter", "input2", &answer, &mut asked).unwrap();
    assert_eq!(get(&results2, "counter").unwrap().as_ref().unwrap(), "Called 2 times");
}

#[test]
fn join_waits_for_every_inflow() {
    // diamond: end runs once, after both a and b, on both their outputs
    let mut workflow = DAGWorkflow::new("test", "Test workflow");
    for name in ["start", "a", "b", "end"] {
        workflow.register_agent(name);
    }
    workflow.connect_agents("start", "a", Flow::default()).unwrap();
    workflow.connect_agents("start", "b", Flow::default()).unwrap();
    workflow.connect_agents("a", "end", Flow::default()).unwrap();
    workflow.connect_agents("b", "end", Flow::default()).unwrap();

    let mut asked = Vec::new();
    let answer = fixed(&[("start", "s"), ("a", "from a"), ("b", "from b"), ("end", "done")]);
    let results = drive(&workflow, "start", "go", &answer, &mut asked).unwrap();
    assert_eq!(results.len(), 4);
    let end_runs: Vec<_> = asked.iter().filter(|(n, _)| n == "end").collect();
    assert_eq!(end_runs.len(), 1);
    // flows out of an agent are fed newest first, so b's output arrives first
    assert_eq!(end_runs[0].1, "[From b] from b\n[From a] from a\n");
}

#[test]
fn failing_start_agent_fails_the_run() {
    let mut workflow = DAGWorkflow::new("test", "Test workflow");
    workflow.register_agent("agent1");
    let mut asked = Vec::new();
    let answer = |_agent: &str, _input: &str| AgentOutcome::Failed("boom".to_string());
    let result = drive(&workflow, "agent1", "input", &answer, &mut asked);
    match result {
        Err(GraphWorkflowError::AgentError(m)) => assert_eq!(m, "boom"),
        _ => panic!("expected the start agent's error"),
    }
}

#[test]
fn timed_out_start_agent_fails_the_run() {
    let mut workflow = DAGWorkflow::new("test", "Test workflow");
    workflow.register_agent("agent1");
    let mut asked = Vec::new();
    let answer = |_agent: &str, _input: &str| AgentOutcome::TimedOut;
    let result = drive(&workflow, "agent1", "input", &answer, &mut asked);
    match result {
        Err(GraphWorkflowError::Timeout(m)) => assert_eq!(m, "agent1"),
        _ => panic!("expected a timeout"),
    }
}

#[test]
fn timed_out_later_agent_is_left_out() {
    let mut workflow = DAGWorkflow::new("test", "Test workflow");
    workflow.register_agent("agent1");
    workflow.register_agent("agent2");
    workflow.connect_agents("agent1", "agent2", Flow::default()).unwrap();
    let mut asked = Vec::new();
    let answer = |agent: &str, _input: &str| {
        if agent == "agent1" {
            AgentOutcome::Completed("ok".to_string())
        } else {
            AgentOutcome::TimedOut
        }
    };
    let results = drive(&workflow, "agent1", "input", &answer, &mut asked).unwrap();
    assert_eq!(results.len(), 1);
    assert!(get(&results, "agent2").is_none());
}

#[test]
fn error_messages_name_the_agents() {
    let mut workflow = DAGWorkflow::new("test", "Test workflow");
    workflow.register_agent("agent1");
    match workflow.connect_agents("ghost", "agent1", Flow::default()) {
        Err(GraphWorkflowError::AgentNotFound(m)) => assert_eq!(m, "Source agent 'ghost' not found"),
        _ => panic!("expected AgentNotFound"),
    }
    match workflow.connect_agents("agent1", "ghost", Flow::default()) {
        Err(GraphWorkflowError::AgentNotFound(m)) => assert_eq!(m, "Target agent 'ghost' not found"),
        _ => panic!("expected AgentNotFound"),
    }
    match workflow.remove_agent("ghost") {
        Err(GraphWorkflowError::AgentNotFound(m)) => assert_eq!(m, "Agent 'ghost' not found"),
        _ => panic!("expected AgentNotFound"),
    }
    match workflow.find_execution_paths("ghost") {
        Err(GraphWorkflowError::AgentNotFound(m)) => assert_eq!(m, "Start agent 'ghost' not found"),
        _ => panic!("expected AgentNotFound"),
    }
}

#[test]
fn removal_after_other_removals_keeps_cycle_checks_working() {
    let mut workflow = DAGWorkflow::new("test", "Test workflow");
    for name in ["a", "b", "c", "d"] {
        workflow.register_agent(name);
    }
    workflow.remove_agent("a").unwrap();
    workflow.connect_agents("b", "c", Flow::default()).unwrap();
    workflow.connect_agents("c", "d", Flow::default()).unwrap();
    assert!(matches!(workflow.connect_agents("d", "b", Flow::default()), Err(GraphWorkflowError::CycleDetected)));
    assert_eq!(workflow.edge_count(), 2);
    assert_eq!(workflow.node_count(), 3);
}

#[test]
fn dot_lists_nodes_then_edges() {
    let mut workflow = DAGWorkflow::new("test", "Test workflow");
    workflow.register_agent("a");
    workflow.register_agent("b");
    workflow.connect_agents("a", "b", Flow::default()).unwrap();
    let dot = workflow.export_workflow_dot();
    assert_eq!(dot, "digraph {\n    \"a\" [label=\"a\"];\n    \"b\" [label=\"b\"];\n    \"a\" -> \"b\";\n}\n");
}

#[test]
fn disconnect_undoes_connect() {
    let mut workflow = DAGWorkflow::new("test", "Test workflow");
    for name in ["a", "b", "c"] {
        workflow.register_agent(name);
    }
    workflow.connect_agents("a", "b", Flow::default()).unwrap();
    let before = workflow.get_workflow_structure();
    let dot_before = workflow.export_workflow_dot();
    workflow.connect_agents("b", "c", transform_flow()).unwrap();
    workflow.disconnect_agents("b", "c").unwrap();
    assert_eq!(workflow.get_workflow_structure(), before);
    assert_eq!(workflow.export_workflow_dot(), dot_before);
}

#[test]
fn execution_paths_never_repeat_an_agent() {
    let mut workflow = DAGWorkflow::new("test", "Test workflow");
    for name in ["a", "b", "c", "d"] {
        workflow.register_agent(name);
    }
    workflow.connect_agents("a", "b", Flow::default()).unwrap();
    workflow.connect_agents("b", "c", Flow::default()).unwrap();
    workflow.connect_agents("a", "c", Flow::default()).unwrap();
    workflow.connect_agents("c", "d", Flow::default()).unwrap();
    let paths = workflow.find_execution_paths("a").unwrap();
    assert_eq!(paths.len(), 2);
    for p in &paths {
        let mut seen = std::collections::HashSet::new();
        assert!(p.iter().all(|n| seen.insert(n.clone())));
        assert_eq!(p.last().unwrap(), "d");
    }
}
