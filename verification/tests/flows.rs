use swarms_rs::batch::{
    collect_answers, optimal_threads, plan_batch, BatchConfig, BatchConfigBuilder, BatchExecutionError, BatchOutcome,
};
use swarms_rs::rearrange::{
    effective_max_loops, format_output, parse_flow, record_response, rules_message, validate_flow,
    AgentRearrangeError, OutputType, RearrangeAction, RearrangeRun,
};
use swarms_rs::router::{default_router_settings, plan_router, validate_agents, SwarmPlan, SwarmRouterError, SwarmType};
use swarms_rs::sequential::{handoff, SequentialAction, SequentialRun, SequentialWorkflowError};

fn names(v: &[&str]) -> Vec<String> {
    v.iter().map(|s| s.to_string()).collect()
}

#[test]
fn flow_is_split_into_steps_and_trimmed_names() {
    let steps = parse_flow("scout -> writer, editor -> publisher");
    assert_eq!(steps, vec![names(&["scout"]), names(&["writer", "editor"]), names(&["publisher"])]);
    assert_eq!(parse_flow("a, b"), vec![names(&["a", "b"])]);
    assert_eq!(parse_flow(""), vec![names(&[""])]);
}

#[test]
fn flow_validation() {
    let agents = names(&["a", "b"]);
    assert!(matches!(validate_flow("", &agents), Err(AgentRearrangeError::FlowValidationError(m)) if m == "Flow cannot be empty"));
    assert!(validate_flow("a -> H -> b", &agents).is_ok());
    assert!(matches!(validate_flow("a -> c, d", &agents), Err(AgentRearrangeError::AgentNotFound(m)) if m == "c"));
    assert!(matches!(validate_flow("a ->", &agents), Err(AgentRearrangeError::AgentNotFound(m)) if m == ""));
    assert!(matches!(validate_flow("a", &agents), Err(AgentRearrangeError::FlowValidationError(m)) if m == "Flow must contain '->'"));
    assert!(matches!(validate_flow("a, b", &agents), Err(AgentRearrangeError::FlowValidationError(_))));
}

#[test]
fn rearrangement_runs_steps_in_order() {
    // a -> b, c -> d, twice; H is skipped
    let (mut run, a) = RearrangeRun::start("a -> H -> b, c -> d", 2, "task".to_string());
    for _ in 0..2 {
        match a {
            RearrangeAction::RunAgent { ref agent } => assert_eq!(agent, "a"),
            _ => panic!("expected a"),
        }
        let next = run.agent_answered("A".to_string());
        match next {
            RearrangeAction::RunParallel { ref agents, ref task } => {
                assert_eq!(agents, &names(&["b", "c"]));
                assert_eq!(task, "A");
            },
            _ => panic!("expected b, c"),
        }
        let next = run.parallel_answered(vec![("b".to_string(), "B".to_string()), ("c".to_string(), "C".to_string())]);
        match next {
            RearrangeAction::RunAgent { ref agent } => assert_eq!(agent, "d"),
            _ => panic!("expected d"),
        }
        let a2 = run.agent_answered("D".to_string());
        if let RearrangeAction::Finished = a2 {
            break;
        }
        match a2 {
            RearrangeAction::RunAgent { ref agent } => assert_eq!(agent, "a"),
            _ => panic!(),
        }
        let next = run.agent_answered("A2".to_string());
        let next = match next {
            RearrangeAction::RunParallel { .. } => run.parallel_answered(vec![("b".to_string(), "B2".to_string()), ("c".to_string(), "C2".to_string())]),
            _ => panic!(),
        };
        let fin = match next {
            RearrangeAction::RunAgent { .. } => run.agent_answered("D2".to_string()),
            _ => panic!(),
        };
        assert!(matches!(fin, RearrangeAction::Finished));
        break;
    }
    let (responses, last) = run.results();
    assert_eq!(last, "D2");
    assert_eq!(
        responses,
        vec![
            ("a".to_string(), "A2".to_string()),
            ("b".to_string(), "B2".to_string()),
            ("c".to_string(), "C2".to_string()),
            ("d".to_string(), "D2".to_string())
        ]
    );
}

#[test]
fn flow_of_only_human_marks_finishes_at_once() {
    let (_, a) = RearrangeRun::start("H -> H", 3, "t".to_string());
    assert!(matches!(a, RearrangeAction::Finished));
}

#[test]
fn output_formats() {
    let responses = vec![("b".to_string(), "x".to_string()), ("a".to_string(), "y".to_string())];
    assert_eq!(format_output(&OutputType::All, false, &responses, "fin"), "b: x\na: y\n");
    assert_eq!(format_output(&OutputType::Final, false, &responses, "fin"), "fin");
    assert_eq!(format_output(&OutputType::List, false, &responses, "fin"), "x\ny");
    assert_eq!(format_output(&OutputType::List, true, &responses, "fin"), "[\"x\",\"y\"]");
    assert_eq!(format_output(&OutputType::Dict, false, &responses, "fin"), "b: x\na: y");
    assert_eq!(format_output(&OutputType::Dict, true, &responses, "fin"), "{\"a\":\"y\",\"b\":\"x\"}");
    assert_eq!(format_output(&OutputType::List, true, &vec![], "fin"), "[]");
    assert_eq!(format_output(&OutputType::All, false, &vec![], "fin"), "");
}

#[test]
fn responses_are_replaced_in_place() {
    let mut map = Vec::new();
    record_response(&mut map, "a".to_string(), "1".to_string());
    record_response(&mut map, "b".to_string(), "2".to_string());
    record_response(&mut map, "a".to_string(), "3".to_string());
    assert_eq!(map, vec![("a".to_string(), "3".to_string()), ("b".to_string(), "2".to_string())]);
}

#[test]
fn rearrange_settings() {
    assert_eq!(effective_max_loops(0), 1);
    assert_eq!(effective_max_loops(4), 4);
    assert_eq!(rules_message("be kind"), "Rules: be kind");
    assert!(matches!(OutputType::default(), OutputType::All));
}

#[test]
fn sequential_hands_each_output_to_the_next_agent() {
    let (mut run, a) = SequentialRun::start(names(&["first", "second"]), "task".to_string()).ok().unwrap();
    assert!(matches!(a, SequentialAction::RunAgent { index: 0, ref input } if input == "task"));
    let a = run.agent_answered("out1".to_string());
    assert!(matches!(a, SequentialAction::RunAgent { index: 1, ref input } if input == "[From Agent] first:\nout1"));
    let a = run.agent_answered("out2".to_string());
    assert!(matches!(a, SequentialAction::Finished));
    assert_eq!(run.outputs(), names(&["out1", "out2"]));
}

#[test]
fn sequential_refuses_no_agents_or_no_task() {
    assert!(matches!(SequentialRun::start(vec![], "t".to_string()), Err(SequentialWorkflowError::NoAgents)));
    assert!(matches!(SequentialRun::start(names(&["a"]), String::new()), Err(SequentialWorkflowError::NoTasks)));
    assert_eq!(handoff("n", "o"), "[From Agent] n:\no");
}

#[test]
fn router_injects_rules_and_collaboration_prompt() {
    let mut settings = default_router_settings();
    assert_eq!(settings.name, "swarm-router");
    assert_eq!(settings.description, "Routes your task to the desired swarm");
    assert!(matches!(settings.swarm_type, SwarmType::SequentialWorkflow));
    assert!(settings.multi_agent_collab_prompt);
    settings.rules = Some("no lies".to_string());
    let (plan, prompts) = plan_router(settings, vec![Some("You are A".to_string()), None], "COLLAB").ok().unwrap();
    assert!(matches!(plan, SwarmPlan::Sequential { ref name, .. } if name == "swarm-router"));
    assert_eq!(prompts[0], Some("You are A\n### SWARM RULES ###\nno lies\nCOLLAB".to_string()));
    assert_eq!(prompts[1], Some("\n### SWARM RULES ###\nno lies\nCOLLAB".to_string()));
}

#[test]
fn router_without_rules_or_collaboration_keeps_prompts() {
    let mut settings = default_router_settings();
    settings.multi_agent_collab_prompt = false;
    settings.swarm_type = SwarmType::AgentRearrange;
    settings.flow = Some("a -> b".to_string());
    settings.max_loops = Some(2);
    let (plan, prompts) = plan_router(settings, vec![Some("p".to_string()), None], "C").ok().unwrap();
    assert_eq!(prompts, vec![Some("p".to_string()), None]);
    match plan {
        SwarmPlan::Rearrange { flow, max_loops, rules, .. } => {
            assert_eq!(flow, Some("a -> b".to_string()));
            assert_eq!(max_loops, Some(2));
            assert_eq!(rules, None);
        },
        _ => panic!(),
    }
}

#[test]
fn router_refuses_no_agents() {
    assert!(matches!(plan_router(default_router_settings(), vec![], "C"), Err(SwarmRouterError::ValidationError(m)) if m == "No agents provided for the swarm."));
    assert!(validate_agents(1).is_ok());
}

#[test]
fn batch_config_defaults_and_builder() {
    let c = BatchConfig::default();
    assert_eq!(c.max_concurrent_tasks, None);
    assert!(c.auto_cpu_optimization);
    assert_eq!(c.worker_threads, None);
    let c = BatchConfigBuilder::default().max_concurrent_tasks(3).auto_cpu_optimization(false).worker_threads(2).build();
    assert_eq!(c.max_concurrent_tasks, Some(3));
    assert!(!c.auto_cpu_optimization);
    assert_eq!(c.worker_threads, Some(2));
}

#[test]
fn thread_count_choice() {
    let auto = BatchConfig::default();
    assert_eq!(optimal_threads(&auto, Some(16)), 16);
    assert_eq!(optimal_threads(&auto, None), 4);
    let manual = BatchConfigBuilder::default().auto_cpu_optimization(false).build();
    assert_eq!(optimal_threads(&manual, Some(16)), 4);
    let fixed = BatchConfigBuilder::default().worker_threads(7).build();
    assert_eq!(optimal_threads(&fixed, Some(16)), 7);
}

#[test]
fn batch_plan_checks_agents_then_tasks() {
    let c = BatchConfig::default();
    assert!(matches!(plan_batch(0, 0, &c, None), Err(BatchExecutionError::NoAgents)));
    assert!(matches!(plan_batch(1, 0, &c, None), Err(BatchExecutionError::NoTasks)));
    assert!(matches!(plan_batch(1, 1, &c, Some(8)), Ok(8)));
    let limited = BatchConfigBuilder::default().max_concurrent_tasks(2).build();
    assert!(matches!(plan_batch(1, 1, &limited, Some(8)), Ok(2)));
}

#[test]
fn batch_answers_keep_the_last_success_per_task() {
    let o = |t: &str, a: &str, r: Result<&str, &str>| BatchOutcome {
        task: t.to_string(),
        agent: a.to_string(),
        response: r.map(|s| s.to_string()).map_err(|s| s.to_string()),
    };
    let answers = collect_answers(vec![
        o("t1", "x", Ok("1")),
        o("t2", "x", Err("bad")),
        o("t1", "y", Ok("2")),
        o("t2", "y", Ok("3")),
    ]);
    assert_eq!(answers.len(), 2);
    assert_eq!(answers[0].task, "t1");
    assert_eq!(answers[0].agent, "y");
    assert_eq!(answers[0].response, "2");
    assert_eq!(answers[1].task, "t2");
    assert_eq!(answers[1].response, "3");
}

#[test]
fn final_result_of_a_parallel_only_flow_is_the_last_answer() {
    let (mut run, first) = RearrangeRun::start("a, b", 1, "task".to_string());
    assert!(matches!(first, RearrangeAction::RunParallel { .. }));
    let next = run.parallel_answered(vec![("a".to_string(), "Ra".to_string()), ("b".to_string(), "Rb".to_string())]);
    assert!(matches!(next, RearrangeAction::Finished));
    let (responses, last) = run.results();
    assert_eq!(last, "Rb");
    assert_eq!(responses.len(), 2);
}

#[test]
fn rearrange_positions_skip_human_steps_and_wrap_loops() {
    let (mut run, first) = RearrangeRun::start("H -> a -> H -> b", 2, "task".to_string());
    assert!(matches!(first, RearrangeAction::RunAgent { ref agent } if agent == "a"));
    let next = run.agent_answered("A1".to_string());
    assert!(matches!(next, RearrangeAction::RunAgent { ref agent } if agent == "b"));
    let next = run.agent_answered("B1".to_string());
    assert!(matches!(next, RearrangeAction::RunAgent { ref agent } if agent == "a"));
    let next = run.agent_answered("A2".to_string());
    assert!(matches!(next, RearrangeAction::RunAgent { ref agent } if agent == "b"));
    let next = run.agent_answered("B2".to_string());
    assert!(matches!(next, RearrangeAction::Finished));
    let (_, last) = run.results();
    assert_eq!(last, "B2");
}
