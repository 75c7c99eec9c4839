use swarms_rs::agent_loop::{
    absorb_reply, chat_request, is_response_complete, plan_chat, plan_prompt, settle_tool_call, task_evaluator, AgentError,
    AgentLoop, AssistantContent, ChatPlan, ChatResponse, LoopAction, TaskStatus, ToolCallOutput, ToolCallRequest,
    ToolOutcome, ToolRound,
};
use swarms_rs::basic_agent::{
    analysis_prompt, format_output, is_stop_response, provider_endpoint, reply_text, request_body, retry_after_failure,
    validate_config, AgentError as ConfigError, ConfigAction, ConfigRun, LanguageModel, MemoryAction, MemoryRun,
    ModelProvider, OutputType, ProviderKeys, SimpleLLM,
};
use swarms_rs::json::{json_field, json_first, read_chat_content, Json};

fn later_prompt(n: u32, m: u32, task: &str) -> String {
    format!(
        "Now, you are in loop {} of {}, The dialogue will terminate upon reaching maximum iteration count. You must:
                         - Complete the user's task before termination
                         - Optimize loop efficiency
                         - Minimize resource consumption through minimal iterations

                        You should consider to use tools if they can help, but only if they are relevant to the task and are necessary for the task.
                        origin task:\n{}",
        n, m, task
    )
}

fn chat_prompt(a: &LoopAction) -> String {
    match a {
        LoopAction::Chat { prompt } => prompt.clone(),
        _ => panic!("expected a chat"),
    }
}

fn tool_output(name: &str, args: &str, result: &str) -> ToolCallOutput {
    ToolCallOutput { name: name.to_string(), args: args.to_string(), result: result.to_string() }
}

#[test]
fn first_loop_prompt_is_empty_and_later_loops_remind_the_task() {
    let (mut run, a) = AgentLoop::start("write a poem".to_string(), 3, 1, false, vec![]);
    assert_eq!(chat_prompt(&a), "");
    let (memory, a) = run.chat_replied(ChatResponse::Text("draft".to_string()), vec![]);
    assert_eq!(memory, "draft");
    assert_eq!(chat_prompt(&a), later_prompt(2, 3, "write a poem"));
    let (_, a) = run.chat_replied(ChatResponse::Text("better".to_string()), vec![]);
    assert_eq!(chat_prompt(&a), later_prompt(3, 3, "write a poem"));
    let (_, a) = run.chat_replied(ChatResponse::Text("final".to_string()), vec![]);
    assert!(matches!(a, LoopAction::Finish));
}

#[test]
fn stop_word_ends_the_run() {
    let (mut run, _) = AgentLoop::start("t".to_string(), 5, 1, false, vec!["DONE".to_string()]);
    let (_, a) = run.chat_replied(ChatResponse::Text("all DONE here".to_string()), vec![]);
    assert!(matches!(a, LoopAction::Finish));
}

#[test]
fn evaluator_incomplete_sets_the_next_prompt_and_complete_ends() {
    let (mut run, _) = AgentLoop::start("t".to_string(), 5, 1, false, vec![]);
    let reply = ChatResponse::ToolCalls(vec![tool_output("task_evaluator", "{}", "raw")]);
    let (memory, a) = run.chat_replied(reply, vec![Some(TaskStatus::Incomplete { context: "add a title".to_string() })]);
    assert_eq!(memory, "[Tool name]: task_evaluator\n[Tool args]: {}\n[Tool result]: raw\n\n");
    assert_eq!(
        chat_prompt(&a),
        "You previously called task_evaluator and indicated the task was not complete. The required next step or context provided was: 'add a title'. Focus ONLY on addressing this context. DO NOT call task_evaluator again in this turn. Proceed with the task based on the context."
    );
    let reply = ChatResponse::ToolCalls(vec![tool_output("task_evaluator", "{}", "\"Complete\"")]);
    let (_, a) = run.chat_replied(reply, vec![Some(TaskStatus::Complete)]);
    assert!(matches!(a, LoopAction::Finish));
}

#[test]
fn unreadable_evaluator_result_becomes_the_context() {
    let reply = ChatResponse::ToolCalls(vec![tool_output("task_evaluator", "{}", "garbage")]);
    let (last, memory, complete, called) = absorb_reply(&reply, &vec![None], "before");
    assert_eq!(last, "Error parsing task_evaluator result. Raw output: garbage");
    assert_eq!(memory, "[Tool name]: task_evaluator\n[Tool args]: {}\n[Tool result]: garbage\n\n");
    assert!(!complete);
    assert!(called);
}

#[test]
fn other_tool_calls_are_all_kept() {
    let reply = ChatResponse::ToolCalls(vec![tool_output("search", "{\"q\":1}", "r1"), tool_output("calc", "{}", "r2")]);
    let (last, memory, complete, called) = absorb_reply(&reply, &vec![None, None], "before");
    let expected = "[Tool name]: search\n[Tool args]: {\"q\":1}\n[Tool result]: r1\n\n[Tool name]: calc\n[Tool args]: {}\n[Tool result]: r2\n\n";
    assert_eq!(last, expected);
    assert_eq!(memory, expected);
    assert!(!complete);
    assert!(!called);
}

#[test]
fn failed_chats_are_retried_then_the_run_closes() {
    let (mut run, a) = AgentLoop::start("t".to_string(), 2, 2, false, vec![]);
    assert_eq!(chat_prompt(&a), "");
    let a = run.chat_failed();
    assert_eq!(chat_prompt(&a), "");
    let a = run.chat_failed();
    assert!(matches!(a, LoopAction::Finish));
}

#[test]
fn autosave_saves_at_start_after_loops_and_at_the_end() {
    let (mut run, a) = AgentLoop::start("t".to_string(), 1, 1, true, vec![]);
    assert!(matches!(a, LoopAction::SaveState));
    let a = run.saved();
    assert_eq!(chat_prompt(&a), "");
    let (_, a) = run.chat_replied(ChatResponse::Text("x".to_string()), vec![]);
    assert!(matches!(a, LoopAction::SaveState));
    let a = run.saved();
    assert!(matches!(a, LoopAction::SaveState));
    let a = run.saved();
    assert!(matches!(a, LoopAction::Finish));
}

#[test]
fn autosave_after_a_failed_attempt_is_quiet() {
    let (mut run, _) = AgentLoop::start("t".to_string(), 1, 2, true, vec![]);
    let _ = run.saved();
    let a = run.chat_failed();
    assert!(matches!(a, LoopAction::SaveStateQuietly));
    let a = run.saved();
    assert_eq!(chat_prompt(&a), "");
}

#[test]
fn no_attempt_allowed_finishes_at_once() {
    let (_, a) = AgentLoop::start("t".to_string(), 3, 0, false, vec![]);
    assert!(matches!(a, LoopAction::Finish));
    let (_, a) = AgentLoop::start("t".to_string(), 0, 3, false, vec![]);
    assert!(matches!(a, LoopAction::Finish));
}

#[test]
fn plan_chat_reads_the_first_item() {
    assert!(matches!(plan_chat(&vec![]), Err(AgentError::NoChoiceFound)));
    let text = vec![AssistantContent::Text("hi".to_string())];
    assert!(matches!(plan_chat(&text), Ok(ChatPlan::Answer(t)) if t == "hi"));
    let calls = vec![
        AssistantContent::ToolCall(ToolCallRequest { name: "a".to_string(), arguments: "1".to_string() }),
        AssistantContent::Text("ignored".to_string()),
        AssistantContent::ToolCall(ToolCallRequest { name: "b".to_string(), arguments: "2".to_string() }),
    ];
    match plan_chat(&calls) {
        Ok(ChatPlan::CallTools(v)) => {
            assert_eq!(v.len(), 2);
            assert_eq!(v[0].name, "a");
            assert_eq!(v[1].name, "b");
            assert_eq!(v[1].arguments, "2");
        },
        _ => panic!("expected tool calls"),
    }
}

#[test]
fn settle_tool_call_depends_on_concurrency() {
    let req = || ToolCallRequest { name: "t".to_string(), arguments: "{}".to_string() };
    match settle_tool_call(req(), ToolOutcome::Missing, true) {
        Ok(o) => assert_eq!(o.result, "Tool not found"),
        _ => panic!(),
    }
    assert!(matches!(settle_tool_call(req(), ToolOutcome::Missing, false), Err(AgentError::ToolNotFound(n)) if n == "t"));
    match settle_tool_call(req(), ToolOutcome::Failed("bad".to_string()), true) {
        Ok(o) => assert_eq!(o.result, "bad"),
        _ => panic!(),
    }
    assert!(matches!(settle_tool_call(req(), ToolOutcome::Failed("bad".to_string()), false), Err(AgentError::ToolError(m)) if m == "bad"));
    match settle_tool_call(req(), ToolOutcome::Returned("42".to_string()), false) {
        Ok(o) => {
            assert_eq!(o.name, "t");
            assert_eq!(o.args, "{}");
            assert_eq!(o.result, "42");
        },
        _ => panic!(),
    }
}

#[test]
fn task_evaluator_returns_the_status() {
    assert!(matches!(task_evaluator(TaskStatus::Complete), Ok(TaskStatus::Complete)));
}

#[test]
fn stop_words_and_plan_prompt() {
    assert!(is_response_complete(&vec!["STOP".to_string(), "end".to_string()], "the end."));
    assert!(!is_response_complete(&vec!["STOP".to_string()], "stop"));
    assert!(!is_response_complete(&vec![], "anything"));
    assert_eq!(plan_prompt("Split the task into subtasks.", "cook"), "Split the task into subtasks. cook");
}

// ---- the configured agent ----

fn run_configured(llm: &dyn LanguageModel, task: &str, max_loops: usize, output: OutputType) -> Result<String, String> {
    validate_config(max_loops, 2048).map_err(|_| "config".to_string())?;
    let (mut run, mut action) = ConfigRun::start(max_loops, 3, 0, 0);
    loop {
        match action {
            ConfigAction::CallModel => {
                action = match llm.run(task) {
                    Ok(r) => run.model_replied(r),
                    Err(e) => run.model_failed(&e),
                };
            },
            ConfigAction::Sleep { .. } => action = run.slept(),
            ConfigAction::Finish { response } => {
                return format_output(&output, response).map_err(|_| "format".to_string());
            },
            ConfigAction::Fail { message } => return Err(message),
        }
    }
}

#[test]
fn test_agent_basic_execution() {
    let llm = SimpleLLM::new("test-llm");
    let result = run_configured(&llm, "test task", 1, OutputType::String).unwrap();
    assert!(result.contains("test task"));
}

#[test]
fn test_agent_batch_processing() {
    let llm = SimpleLLM::new("test-llm");
    let tasks = vec!["task1".to_string(), "task2".to_string(), "task3".to_string()];
    let results: Vec<String> = tasks.iter().map(|t| run_configured(&llm, t, 1, OutputType::String).unwrap()).collect();
    assert_eq!(results.len(), 3);
}

struct Failing;

impl LanguageModel for Failing {
    fn run(&self, _task: &str) -> Result<String, String> {
        Err("down".to_string())
    }

    fn name(&self) -> &str {
        "failing"
    }
}

#[test]
fn configured_run_fails_after_its_attempts() {
    let result = run_configured(&Failing, "t", 2, OutputType::String);
    assert_eq!(result, Err("Failed after 3 attempts. Last error: down".to_string()));
}

#[test]
fn configured_output_formats() {
    let llm = SimpleLLM::new("m");
    assert_eq!(llm.name(), "m");
    assert_eq!(run_configured(&llm, "x", 2, OutputType::List).unwrap(), "[Processed task: x]");
    assert_eq!(run_configured(&llm, "x", 1, OutputType::Json).unwrap(), "\"Processed task: x\"");
    assert_eq!(run_configured(&llm, "x", 1, OutputType::Dict).unwrap(), "\"Processed task: x\"");
    assert_eq!(run_configured(&llm, "x", 1, OutputType::Yaml).unwrap(), "'Processed task: x'\n");
}

#[test]
fn validate_config_refuses_zero_loops_and_tokens() {
    assert!(matches!(validate_config(0, 10), Err(ConfigError::ConfigError(m)) if m == "max_loops must be greater than 0"));
    assert!(matches!(validate_config(1, 0), Err(ConfigError::ConfigError(m)) if m == "max_tokens must be greater than 0"));
    assert!(validate_config(1, 1).is_ok());
}

// ---- the memory-driven agent ----

#[test]
fn memory_run_builds_prompts_from_memory_and_stops_on_stop() {
    let (mut run, a) = MemoryRun::start(Some("  ".to_string()), "user".to_string(), "agent".to_string(), 3, 2, None);
    match a {
        MemoryAction::CallModel { prompt } => assert_eq!(prompt, "user: Auto-generated task prompt"),
        _ => panic!(),
    }
    let a = run.model_replied("first".to_string());
    match a {
        MemoryAction::Analyze { response } => assert_eq!(response, "first"),
        _ => panic!(),
    }
    let a = run.analyzed("fine".to_string());
    match a {
        MemoryAction::CallModel { prompt } => {
            assert_eq!(prompt, "user: Auto-generated task prompt\nagent: first\nagent: fine")
        },
        _ => panic!(),
    }
    let _ = run.model_replied("Please STOP".to_string());
    match run.analyzed("ok".to_string()) {
        MemoryAction::Finish { output } => assert_eq!(output, "first\nPlease STOP"),
        _ => panic!(),
    }
}

#[test]
fn memory_run_pauses_between_attempts_and_sleeps_between_loops() {
    let (mut run, _) = MemoryRun::start(Some("task".to_string()), "u".to_string(), "a".to_string(), 2, 2, Some(3));
    assert!(matches!(run.model_failed(), MemoryAction::Pause { millis: 500 }));
    match run.paused() {
        MemoryAction::CallModel { prompt } => assert_eq!(prompt, "u: task"),
        _ => panic!(),
    }
    let _ = run.model_replied("r".to_string());
    assert!(matches!(run.analyzed("n".to_string()), MemoryAction::Sleep { seconds: 3 }));
    assert!(matches!(run.paused(), MemoryAction::CallModel { .. }));
    assert!(matches!(run.model_failed(), MemoryAction::Pause { .. }));
    assert!(matches!(run.paused(), MemoryAction::CallModel { .. }));
    assert!(matches!(run.model_failed(), MemoryAction::Pause { .. }));
    match run.paused() {
        MemoryAction::Finish { output } => assert_eq!(output, "r"),
        _ => panic!(),
    }
}

#[test]
fn provider_endpoints_and_missing_keys() {
    let keys = ProviderKeys {
        openai_api_key: "sk".to_string(),
        anthropic_api_key: None,
        google_api_key: Some("g".to_string()),
        huggingface_api_key: None,
        other_api_key: None,
    };
    assert_eq!(
        provider_endpoint(&ModelProvider::OpenAI, &keys),
        Ok(("https://api.openai.com/v1/chat/completions".to_string(), "sk".to_string()))
    );
    assert_eq!(
        provider_endpoint(&ModelProvider::Google, &keys),
        Ok(("https://api.google.com/v1/generate".to_string(), "g".to_string()))
    );
    assert_eq!(provider_endpoint(&ModelProvider::Anthropic, &keys), Err("ANTHROPIC_API_KEY is not set".to_string()));
    assert_eq!(
        provider_endpoint(&ModelProvider::Other("mistral".to_string()), &keys),
        Err("OTHER_API_KEY is not set for provider mistral".to_string())
    );
    let keys = ProviderKeys { other_api_key: Some("o".to_string()), ..keys };
    assert_eq!(
        provider_endpoint(&ModelProvider::Other("mistral".to_string()), &keys),
        Ok(("https://api.mistral.com/v1/complete".to_string(), "o".to_string()))
    );
}

#[test]
fn replies_are_read_per_provider() {
    let body = r#"{"choices":[{"message":{"content":"hello"}}]}"#;
    assert_eq!(reply_text(&ModelProvider::OpenAI, body), Ok("hello".to_string()));
    assert_eq!(reply_text(&ModelProvider::OpenAI, "not json"), Err("Failed to parse JSON response".to_string()));
    assert_eq!(
        reply_text(&ModelProvider::OpenAI, r#"{"choices":[]}"#),
        Err("Failed to extract assistant's response from JSON".to_string())
    );
    assert_eq!(reply_text(&ModelProvider::Google, "raw"), Ok("raw".to_string()));
}

#[test]
fn small_legacy_helpers() {
    assert!(retry_after_failure(1));
    assert!(retry_after_failure(2));
    assert!(!retry_after_failure(3));
    assert_eq!(analysis_prompt("x"), "Please analyze the following response: x");
    assert!(is_stop_response("Time to STOP."));
    assert!(!is_stop_response("go on"));
}

fn object(entries: Vec<(&str, Json)>) -> Json {
    Json::Object(entries.into_iter().map(|(k, v)| (k.to_string(), v)).collect())
}

#[test]
fn chat_content_is_read_from_the_document() {
    let message = object(vec![("role", Json::Text("assistant".to_string())), ("content", Json::Text("hi".to_string()))]);
    let doc = object(vec![("id", Json::Number("7".to_string())), ("choices", Json::Array(vec![object(vec![("message", message)])]))]);
    assert_eq!(read_chat_content(&doc), Some("hi".to_string()));
    assert!(json_field(&doc, "id").is_some());
    assert!(json_field(&doc, "missing").is_none());
    assert!(json_first(&Json::Array(vec![])).is_none());
    assert_eq!(read_chat_content(&Json::Null), None);
    assert_eq!(read_chat_content(&object(vec![("choices", Json::Array(vec![]))])), None);
    let no_text = object(vec![(
        "choices",
        Json::Array(vec![object(vec![("message", object(vec![("content", Json::Null)]))])]),
    )]);
    assert_eq!(read_chat_content(&no_text), None);
}

#[test]
fn tool_round_keeps_outputs_and_stops_one_by_one() {
    let req = |n: &str| ToolCallRequest { name: n.to_string(), arguments: "{}".to_string() };
    let mut one_by_one = ToolRound::new(false);
    assert!(one_by_one.settle(req("a"), ToolOutcome::Returned("1".to_string())).is_ok());
    assert!(matches!(one_by_one.settle(req("b"), ToolOutcome::Missing), Err(AgentError::ToolNotFound(ref n)) if n == "b"));
    match one_by_one.finish() {
        ChatResponse::ToolCalls(v) => {
            assert_eq!(v.len(), 1);
            assert_eq!(v[0].result, "1");
        },
        _ => panic!("expected tool calls"),
    }
    let mut concurrent = ToolRound::new(true);
    assert!(concurrent.settle(req("x"), ToolOutcome::Missing).is_ok());
    assert!(concurrent.settle(req("y"), ToolOutcome::Failed("boom".to_string())).is_ok());
    match concurrent.finish() {
        ChatResponse::ToolCalls(v) => {
            assert_eq!(v.len(), 2);
            assert_eq!(v[0].result, "Tool not found");
            assert_eq!(v[1].result, "boom");
        },
        _ => panic!("expected tool calls"),
    }
}

fn text_of(j: &Json) -> &str {
    match j {
        Json::Text(t) => t.as_str(),
        Json::Number(n) => n.as_str(),
        _ => panic!("expected text"),
    }
}

fn message_parts(j: &Json) -> (String, String) {
    match j {
        Json::Object(es) => {
            assert_eq!(es.len(), 2);
            assert_eq!(es[0].0, "role");
            assert_eq!(es[1].0, "content");
            (text_of(&es[0].1).to_string(), text_of(&es[1].1).to_string())
        },
        _ => panic!("expected a message"),
    }
}

#[test]
fn provider_request_bodies() {
    match request_body(&ModelProvider::OpenAI, "hi", &Some("be brief".to_string()), "gpt-4o") {
        Json::Object(es) => {
            assert_eq!(es.len(), 3);
            assert_eq!((es[0].0.as_str(), text_of(&es[0].1)), ("model", "gpt-4o"));
            assert_eq!(es[1].0, "messages");
            match &es[1].1 {
                Json::Array(ms) => {
                    assert_eq!(ms.len(), 2);
                    assert_eq!(message_parts(&ms[0]), ("developer".to_string(), "be brief".to_string()));
                    assert_eq!(message_parts(&ms[1]), ("user".to_string(), "hi".to_string()));
                },
                _ => panic!("expected messages"),
            }
            assert_eq!((es[2].0.as_str(), text_of(&es[2].1)), ("max_tokens", "50"));
        },
        _ => panic!("expected an object"),
    }
    match request_body(&ModelProvider::Google, "hi", &None, "gpt-4o") {
        Json::Object(es) => {
            assert_eq!(es.len(), 2);
            assert_eq!((es[0].0.as_str(), text_of(&es[0].1)), ("prompt", "hi"));
            assert_eq!((es[1].0.as_str(), text_of(&es[1].1)), ("max_tokens", "50"));
        },
        _ => panic!("expected an object"),
    }
}

#[test]
fn chat_turn_request() {
    let history = vec![swarms_rs::agent_loop::ChatMessage { role: "User(u)".to_string(), content: "task".to_string() }];
    let r = chat_request("go on", Some("sys".to_string()), history, vec![1u8, 2u8], 512);
    assert_eq!(r.prompt.role, "user");
    assert_eq!(r.prompt.content, "go on");
    assert_eq!(r.system_prompt, Some("sys".to_string()));
    assert_eq!(r.chat_history.len(), 1);
    assert_eq!(r.chat_history[0].content, "task");
    assert_eq!(r.tools, vec![1u8, 2u8]);
    assert_eq!(r.max_tokens, Some(512));
}
