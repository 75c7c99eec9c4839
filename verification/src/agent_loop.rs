//! The decisions of an autonomous agent: what a model completion asks for,
//! how tool results are settled, and the loop that prompts the model, retries,
//! follows the task evaluator and stops on a stop word.
//!
//! The loop is a state machine: the caller performs each `LoopAction` (talk to
//! the model, save the task state) and reports back what happened.
use vstd::prelude::*;
use crate::text::{cat, cat3, contains_text, decimal, has_infix, owned, text_eq};
#[allow(unused_imports)]
use crate::text::decimal_text;

verus! {

/// A request from the model to call a tool, with its arguments as JSON text.
pub struct ToolCallRequest {
    pub name: String,
    pub arguments: String,
}

/// One item of a model completion.
pub enum AssistantContent {
    Text(String),
    ToolCall(ToolCallRequest),
}

/// A model completion: its items, and the provider's raw response.
pub struct CompletionResponse<T> {
    pub choice: Vec<AssistantContent>,
    pub raw_response: T,
}

/// The output of one chat turn, distinguishing text from tool calls.
pub enum ChatResponse {
    /// Plain text response from the model.
    Text(String),
    /// Results of executing the tool calls the model requested.
    ToolCalls(Vec<ToolCallOutput>),
}

/// The details of a single executed tool call.
pub struct ToolCallOutput {
    /// The name of the tool that was called.
    pub name: String,
    /// The arguments (as a JSON string) passed to the tool.
    pub args: String,
    /// The result (as a string) returned by the tool.
    pub result: String,
}

/// The task status the task evaluator reports. When `Incomplete`, the
/// `context` becomes the next prompt.
pub enum TaskStatus {
    /// The task is complete.
    Complete,
    /// The task is incomplete.
    Incomplete {
        /// Guidance for the next step.
        context: String,
    },
}

/// The error type of the task evaluator, which never fails: no function of
/// this library constructs its variant.
pub enum TaskEvaluatorError {
    Unreachable,
}

/// Errors of a chat turn.
pub enum AgentError {
    /// The completion held no item.
    NoChoiceFound,
    /// The model asked for a tool the agent does not have.
    ToolNotFound(String),
    /// A tool failed, with its message.
    ToolError(String),
}

/// The name under which the task evaluator tool is offered to the model.
pub open spec fn evaluator_name() -> Seq<char> {
    "task_evaluator"@
}

/// The task evaluator tool: it hands back the status the model reported.
pub fn task_evaluator(status: TaskStatus) -> (r: Result<TaskStatus, TaskEvaluatorError>)
    ensures
        r == Ok::<TaskStatus, TaskEvaluatorError>(status),
{
    Ok(status)
}

/// A chat message: a role and its content.
pub struct ChatMessage {
    pub role: String,
    pub content: String,
}

/// The completion request of a chat turn, but its temperature (a number the
/// caller adds): the prompt as the `user` message, the system prompt, the
/// task's history, the tools offered and the token limit.
pub struct ChatRequest<T> {
    pub prompt: ChatMessage,
    pub system_prompt: Option<String>,
    pub chat_history: Vec<ChatMessage>,
    pub tools: Vec<T>,
    pub max_tokens: Option<u64>,
}

/// The completion request of a chat turn (see `ChatRequest`). A prompt sent
/// without tools has an empty history and no tools.
pub fn chat_request<T>(
    prompt: &str,
    system_prompt: Option<String>,
    chat_history: Vec<ChatMessage>,
    tools: Vec<T>,
    max_tokens: u64,
) -> (r: ChatRequest<T>)
    ensures
        r.prompt.role@ == "user"@,
        r.prompt.content@ == prompt@,
        r.system_prompt == system_prompt,
        r.chat_history == chat_history,
        r.tools == tools,
        r.max_tokens == Some(max_tokens),
{
    ChatRequest {
        prompt: ChatMessage { role: owned("user"), content: owned(prompt) },
        system_prompt,
        chat_history,
        tools,
        max_tokens: Some(max_tokens),
    }
}

/// What a completion asks for.
pub enum ChatPlan {
    /// Answer with this text.
    Answer(String),
    /// Call these tools, in this order.
    CallTools(Vec<ToolCallRequest>),
}

/// The tool-call items of a completion, in order.
pub open spec fn tool_requests(s: Seq<AssistantContent>) -> Seq<ToolCallRequest>
    decreases s.len(),
{
    if s.len() == 0 {
        Seq::empty()
    } else {
        let rest = tool_requests(s.drop_last());
        match s.last() {
            AssistantContent::ToolCall(c) => rest.push(c),
            AssistantContent::Text(_) => rest,
        }
    }
}

fn copy_request(c: &ToolCallRequest) -> (r: ToolCallRequest)
    ensures
        r == *c,
{
    ToolCallRequest { name: c.name.clone(), arguments: c.arguments.clone() }
}

/// Read a completion: no item is an error; a first text item is the answer;
/// a first tool call means every tool call of the completion is to be made.
pub fn plan_chat(choice: &Vec<AssistantContent>) -> (r: Result<ChatPlan, AgentError>)
    ensures
        choice.len() == 0 ==> r is Err && r->Err_0 is NoChoiceFound,
        choice.len() > 0 ==> match choice@[0] {
            AssistantContent::Text(t) => r matches Ok(ChatPlan::Answer(a)) && a == t,
            AssistantContent::ToolCall(_) => r matches Ok(ChatPlan::CallTools(v)) && v@ == tool_requests(choice@),
        },
{
    if choice.len() == 0 {
        return Err(AgentError::NoChoiceFound);
    }
    match &choice[0] {
        AssistantContent::Text(t) => Ok(ChatPlan::Answer(t.clone())),
        AssistantContent::ToolCall(_) => {
            let mut calls: Vec<ToolCallRequest> = Vec::new();
            let mut i: usize = 0;
            while i < choice.len()
                invariant
                    i <= choice.len(),
                    calls@ == tool_requests(choice@.take(i as int)),
                decreases choice.len() - i,
            {
                proof {
                    assert(choice@.take(i as int + 1).drop_last() =~= choice@.take(i as int));
                }
                match &choice[i] {
                    AssistantContent::ToolCall(c) => {
                        calls.push(copy_request(c));
                    },
                    AssistantContent::Text(_) => {},
                }
                i = i + 1;
            }
            proof {
                assert(choice@.take(choice.len() as int) =~= choice@);
            }
            Ok(ChatPlan::CallTools(calls))
        },
    }
}

/// The answer to a prompt sent without tools: the first item's text. A
/// completion without items is an error; one that starts with a tool call
/// cannot happen, as no tool is offered.
pub fn prompt_answer(choice: &Vec<AssistantContent>) -> (r: Result<String, AgentError>)
    requires
        choice.len() > 0 ==> choice@[0] is Text,
    ensures
        choice.len() == 0 ==> r is Err && r->Err_0 is NoChoiceFound,
        choice.len() > 0 ==> (r matches Ok(t) && choice@[0] == AssistantContent::Text(t)),
{
    if choice.len() == 0 {
        return Err(AgentError::NoChoiceFound);
    }
    match &choice[0] {
        AssistantContent::Text(t) => Ok(t.clone()),
        AssistantContent::ToolCall(_) => Err(AgentError::NoChoiceFound),
    }
}

/// The outputs of the tasks that succeeded, in the order of the results; the
/// failed ones are dropped (and only logged).
pub open spec fn successes(results: Seq<Result<String, String>>) -> Seq<String>
    decreases results.len(),
{
    if results.len() == 0 {
        Seq::empty()
    } else {
        match results.last() {
            Ok(s) => successes(results.drop_last()).push(s),
            Err(_) => successes(results.drop_last()),
        }
    }
}

/// Keeping the successes drops exactly the failures: every kept output is
/// the output of a task that succeeded, every success is kept, and nothing
/// is added.
pub proof fn lemma_successes_law(results: Seq<Result<String, String>>)
    ensures
        successes(results).len() <= results.len(),
        forall|i: int|
            0 <= i < successes(results).len() ==> results.contains(Ok(#[trigger] successes(results)[i])),
        forall|j: int| 0 <= j < results.len() && (#[trigger] results[j]) is Ok ==> successes(results).contains(
            results[j]->Ok_0,
        ),
    decreases results.len(),
{
    if results.len() > 0 {
        let p = results.drop_last();
        lemma_successes_law(p);
        let sp = successes(p);
        let sr = successes(results);
        let n = results.len() - 1;
        assert forall|i: int| 0 <= i < sr.len() implies results.contains(Ok(#[trigger] sr[i])) by {
            if i < sp.len() {
                assert(sr[i] == sp[i]);
                let k = choose|k: int| 0 <= k < p.len() && p[k] == Ok::<String, String>(sp[i]);
                assert(results[k] == p[k]);
            } else {
                assert(results[n] == Ok::<String, String>(sr[i]));
            }
        }
        assert forall|j: int| 0 <= j < results.len() && (#[trigger] results[j]) is Ok implies sr.contains(
            results[j]->Ok_0,
        ) by {
            if j < n {
                assert(results[j] == p[j]);
                let k = choose|k: int| 0 <= k < sp.len() && sp[k] == p[j]->Ok_0;
                assert(sr[k] == sp[k]);
            } else {
                assert(sr[sr.len() - 1] == results[j]->Ok_0);
            }
        }
    }
}

/// Keep the outputs of the tasks that succeeded.
pub fn keep_successes(results: Vec<Result<String, String>>) -> (r: Vec<String>)
    ensures
        r@ == successes(results@),
{
    let mut out: Vec<String> = Vec::new();
    let mut i: usize = 0;
    while i < results.len()
        invariant
            i <= results.len(),
            out@ == successes(results@.take(i as int)),
        decreases results.len() - i,
    {
        proof {
            assert(results@.take(i as int + 1).drop_last() =~= results@.take(i as int));
            assert(results@.take(i as int + 1).last() == results@[i as int]);
        }
        match &results[i] {
            Ok(s) => out.push(s.clone()),
            Err(_) => {},
        }
        i = i + 1;
    }
    proof {
        assert(results@.take(results.len() as int) =~= results@);
    }
    out
}

/// What became of a requested tool call.
pub enum ToolOutcome {
    /// The agent has no tool of that name.
    Missing,
    /// The tool returned this result.
    Returned(String),
    /// The tool failed with this message.
    Failed(String),
}

/// How a tool call settles: its output (name, arguments, and the result or
/// the failure's message, or "Tool not found"), or, one by one, the error.
pub open spec fn settled_as(
    request: ToolCallRequest,
    outcome: ToolOutcome,
    concurrent: bool,
    r: Result<ToolCallOutput, AgentError>,
) -> bool {
    match outcome {
        ToolOutcome::Missing => if concurrent {
            r matches Ok(o) && o.name == request.name && o.args == request.arguments && o.result@ == "Tool not found"@
        } else {
            r matches Err(AgentError::ToolNotFound(n)) && n == request.name
        },
        ToolOutcome::Failed(m) => if concurrent {
            r matches Ok(o) && o.name == request.name && o.args == request.arguments && o.result == m
        } else {
            r matches Err(AgentError::ToolError(x)) && x == m
        },
        ToolOutcome::Returned(v) => r matches Ok(o) && o.name == request.name && o.args == request.arguments
            && o.result == v,
    }
}

/// Settle one tool call. When tool calls run concurrently, a missing tool
/// and a failure are reported to the model as the call's result; when they
/// run one by one, either ends the turn with an error.
pub fn settle_tool_call(request: ToolCallRequest, outcome: ToolOutcome, concurrent: bool) -> (r: Result<
    ToolCallOutput,
    AgentError,
>)
    ensures
        settled_as(request, outcome, concurrent, r),
{
    match outcome {
        ToolOutcome::Missing => if concurrent {
            Ok(ToolCallOutput { name: request.name, args: request.arguments, result: owned("Tool not found") })
        } else {
            Err(AgentError::ToolNotFound(request.name))
        },
        ToolOutcome::Failed(m) => if concurrent {
            Ok(ToolCallOutput { name: request.name, args: request.arguments, result: m })
        } else {
            Err(AgentError::ToolError(m))
        },
        ToolOutcome::Returned(v) => Ok(ToolCallOutput { name: request.name, args: request.arguments, result: v }),
    }
}

/// The tool calls of one reply, settled as they finish: the outputs kept so
/// far, and whether the calls run concurrently.
pub struct ToolRound {
    concurrent: bool,
    outputs: Vec<ToolCallOutput>,
}

impl ToolRound {
    pub closed spec fn spec_concurrent(&self) -> bool {
        self.concurrent
    }

    pub closed spec fn spec_outputs(&self) -> Seq<ToolCallOutput> {
        self.outputs@
    }

    /// A round with no call settled yet.
    pub fn new(concurrent: bool) -> (r: ToolRound)
        ensures
            r.spec_concurrent() == concurrent,
            r.spec_outputs().len() == 0,
    {
        ToolRound { concurrent, outputs: Vec::new() }
    }

    /// Settle a call that finished (see `settled_as`): its output is kept;
    /// when the calls run one by one, a missing tool or a failure is the
    /// turn's error, and no further call is to be made.
    pub fn settle(&mut self, request: ToolCallRequest, outcome: ToolOutcome) -> (r: Result<(), AgentError>)
        ensures
            final(self).spec_concurrent() == old(self).spec_concurrent(),
            match r {
                Ok(()) => exists|o: ToolCallOutput|
                    final(self).spec_outputs() == old(self).spec_outputs().push(o) && #[trigger] settled_as(
                        request,
                        outcome,
                        old(self).spec_concurrent(),
                        Ok(o),
                    ),
                Err(e) => final(self).spec_outputs() == old(self).spec_outputs() && settled_as(
                    request,
                    outcome,
                    old(self).spec_concurrent(),
                    Err(e),
                ),
            },
    {
        match settle_tool_call(request, outcome, self.concurrent) {
            Ok(o) => {
                self.outputs.push(o);
                Ok(())
            },
            Err(e) => Err(e),
        }
    }

    /// The reply: the outputs kept, in the order the calls finished.
    pub fn finish(self) -> (r: ChatResponse)
        ensures
            r matches ChatResponse::ToolCalls(v) && v@ == self.spec_outputs(),
    {
        ChatResponse::ToolCalls(self.outputs)
    }
}

/// `"[Tool name]: <name>\n[Tool args]: <args>\n[Tool result]: <result>\n\n"`.
pub open spec fn tool_line(o: ToolCallOutput) -> Seq<char> {
    "[Tool name]: "@ + o.name@ + "\n[Tool args]: "@ + o.args@ + "\n[Tool result]: "@ + o.result@ + "\n\n"@
}

/// The lines of all tool calls, in order.
pub open spec fn tool_lines(calls: Seq<ToolCallOutput>) -> Seq<char>
    decreases calls.len(),
{
    if calls.len() == 0 {
        Seq::empty()
    } else {
        tool_lines(calls.drop_last()) + tool_line(calls.last())
    }
}

/// The text that replaces the context when the evaluator's result cannot be read.
pub open spec fn unreadable_status_text(raw: Seq<char>) -> Seq<char> {
    "Error parsing task_evaluator result. Raw output: "@ + raw
}

/// The status read from the result of tool call `i`, if any.
pub open spec fn status_at(statuses: Seq<Option<TaskStatus>>, i: int) -> Option<TaskStatus> {
    if 0 <= i < statuses.len() {
        statuses[i]
    } else {
        None
    }
}

/// Walk the tool calls of a reply: `(last text, memory text, complete, evaluator called)`.
pub open spec fn fold_calls(
    calls: Seq<ToolCallOutput>,
    statuses: Seq<Option<TaskStatus>>,
    start: (Seq<char>, Seq<char>, bool, bool),
) -> (Seq<char>, Seq<char>, bool, bool)
    decreases calls.len(),
{
    if calls.len() == 0 {
        start
    } else {
        let prev = fold_calls(calls.drop_last(), statuses, start);
        let i = calls.len() - 1;
        let c = calls.last();
        let f = tool_line(c);
        if c.name@ == evaluator_name() {
            match status_at(statuses, i) {
                Some(TaskStatus::Complete) => (prev.0, f, true, true),
                Some(TaskStatus::Incomplete { context }) => (context@, f, false, true),
                None => (unreadable_status_text(c.result@), f, false, true),
            }
        } else if i == 0 {
            (f, prev.1, prev.2, prev.3)
        } else {
            (prev.0 + f, prev.1, prev.2, prev.3)
        }
    }
}

/// What a reply does to the loop: `(last text, memory text, complete, evaluator called)`.
/// A text reply becomes both the last text and the memory text. For tool
/// calls, every call's line goes to memory unless the evaluator was called;
/// the evaluator's status decides completion and, when incomplete, the next
/// context.
pub open spec fn reply_effect(reply: ChatResponse, statuses: Seq<Option<TaskStatus>>, last: Seq<char>) -> (
    Seq<char>,
    Seq<char>,
    bool,
    bool,
) {
    match reply {
        ChatResponse::Text(t) => (t@, t@, false, false),
        ChatResponse::ToolCalls(cs) => {
            let st = fold_calls(cs@, statuses, (last, Seq::empty(), false, false));
            let acc = tool_lines(cs@);
            let memory = if st.1.len() == 0 || !st.3 {
                acc
            } else {
                st.1
            };
            let l = if !st.3 {
                acc
            } else {
                st.0
            };
            (l, memory, st.2, st.3)
        },
    }
}

fn tool_line_of(o: &ToolCallOutput) -> (r: String)
    ensures
        r@ == tool_line(*o),
{
    let mut s = owned("[Tool name]: ");
    s.append(o.name.as_str());
    s.append("\n[Tool args]: ");
    s.append(o.args.as_str());
    s.append("\n[Tool result]: ");
    s.append(o.result.as_str());
    s.append("\n\n");
    s
}

fn copy_status(s: &TaskStatus) -> (r: TaskStatus)
    ensures
        r == *s,
{
    match s {
        TaskStatus::Complete => TaskStatus::Complete,
        TaskStatus::Incomplete { context } => TaskStatus::Incomplete { context: context.clone() },
    }
}

/// Apply a chat reply: returns `(last text, memory text, complete, evaluator called)`.
/// `statuses[i]` is the status read from the result of tool call `i` (`None`
/// where it could not be read); only calls of the task evaluator use it.
pub fn absorb_reply(reply: &ChatResponse, statuses: &Vec<Option<TaskStatus>>, last: &str) -> (r: (
    String,
    String,
    bool,
    bool,
))
    ensures
        (r.0@, r.1@, r.2, r.3) == reply_effect(*reply, statuses@, last@),
{
    match reply {
        ChatResponse::Text(t) => (t.clone(), t.clone(), false, false),
        ChatResponse::ToolCalls(cs) => {
            let ghost start = (last@, Seq::<char>::empty(), false, false);
            let mut l = owned(last);
            let mut memory = String::new();
            let mut complete = false;
            let mut called = false;
            let mut acc = String::new();
            let mut i: usize = 0;
            while i < cs.len()
                invariant
                    i <= cs.len(),
                    (l@, memory@, complete, called) == fold_calls(cs@.take(i as int), statuses@, start),
                    acc@ == tool_lines(cs@.take(i as int)),
                decreases cs.len() - i,
            {
                proof {
                    let tk = cs@.take(i as int + 1);
                    assert(tk.drop_last() =~= cs@.take(i as int));
                    assert(tk.last() == cs@[i as int]);
                }
                let c = &cs[i];
                let f = tool_line_of(c);
                acc.append(f.as_str());
                if text_eq(c.name.as_str(), "task_evaluator") {
                    called = true;
                    let st: Option<TaskStatus> = if i < statuses.len() {
                        match &statuses[i] {
                            Some(x) => Some(copy_status(x)),
                            None => None,
                        }
                    } else {
                        None
                    };
                    match st {
                        Some(TaskStatus::Complete) => {
                            complete = true;
                            memory = f;
                        },
                        Some(TaskStatus::Incomplete { context }) => {
                            complete = false;
                            l = context;
                            memory = f;
                        },
                        None => {
                            complete = false;
                            l = cat("Error parsing task_evaluator result. Raw output: ", c.result.as_str());
                            memory = f;
                        },
                    }
                } else if i == 0 {
                    l = f;
                } else {
                    l.append(f.as_str());
                }
                i = i + 1;
            }
            proof {
                assert(cs@.take(cs.len() as int) =~= cs@);
            }
            if memory.unicode_len() == 0 || !called {
                memory = acc.clone();
                if !called {
                    l = acc;
                }
            }
            (l, memory, complete, called)
        },
    }
}

/// Some stop word occurs in `text`.
pub open spec fn stop_hit(stop_words: Seq<String>, text: Seq<char>) -> bool {
    exists|i: int| 0 <= i < stop_words.len() && has_infix(text, #[trigger] stop_words[i]@)
}

/// Whether a response is complete: it holds one of the stop words.
pub fn is_response_complete(stop_words: &Vec<String>, response: &str) -> (r: bool)
    ensures
        r == stop_hit(stop_words@, response@),
{
    let mut i: usize = 0;
    while i < stop_words.len()
        invariant
            i <= stop_words.len(),
            forall|j: int| 0 <= j < i ==> !has_infix(response@, #[trigger] stop_words@[j]@),
        decreases stop_words.len() - i,
    {
        if contains_text(response, stop_words[i].as_str()) {
            return true;
        }
        i = i + 1;
    }
    false
}

/// The planning request: the planning prompt, a space, and the task.
pub open spec fn planning_request(planning_prompt: Seq<char>, task: Seq<char>) -> Seq<char> {
    planning_prompt + " "@ + task
}

/// The request sent to the model to plan a task.
pub fn plan_prompt(planning_prompt: &str, task: &str) -> (r: String)
    ensures
        r@ == planning_request(planning_prompt@, task@),
{
    cat3(planning_prompt, " ", task)
}

/// The prompt after the task evaluator asked for more work.
pub open spec fn evaluator_followup(context: Seq<char>) -> Seq<char> {
    "You previously called task_evaluator and indicated the task was not complete. The required next step or context provided was: '"@
        + context
        + "'. Focus ONLY on addressing this context. DO NOT call task_evaluator again in this turn. Proceed with the task based on the context."@
}

/// The text between the loop counts and the task in a later loop's prompt.
pub open spec fn later_loop_body() -> Seq<char> {
    ", The dialogue will terminate upon reaching maximum iteration count. You must:\n                         - Complete the user's task before termination\n                         - Optimize loop efficiency\n                         - Minimize resource consumption through minimal iterations\n\n                        You should consider to use tools if they can help, but only if they are relevant to the task and are necessary for the task.\n                        origin task:\n"@
}

/// The prompt of loop `loop_count` (counted from 0): the evaluator follow-up
/// if the evaluator asked for more, empty on the first loop (the task is in
/// the history), else the reminder of the loop count and the task.
pub open spec fn loop_prompt(prev_eval: bool, loop_count: nat, max_loops: nat, task: Seq<char>, last: Seq<char>) -> Seq<
    char,
> {
    if prev_eval {
        evaluator_followup(last)
    } else if loop_count > 0 {
        "Now, you are in loop "@ + decimal_text(loop_count + 1) + " of "@ + decimal_text(max_loops) + later_loop_body()
            + task
    } else {
        Seq::empty()
    }
}

/// What the caller of the agent loop must do next.
pub enum LoopAction {
    /// Save the task state; if that fails, the run fails.
    SaveState,
    /// Save the task state; a failure is only logged.
    SaveStateQuietly,
    /// Ask the model with this prompt and the task's history.
    Chat { prompt: String },
    /// The loop is over: the run's output is the task's history.
    Finish,
}

/// Where the loop stands.
pub enum LoopPhase {
    /// The opening save is awaited.
    Opening,
    /// A chat reply is awaited.
    Chatting,
    /// The save at the end of a loop is awaited.
    LoopSave,
    /// The save after a failed attempt is awaited.
    RetrySave,
    /// The closing save is awaited.
    Closing,
    /// The loop is over.
    Done,
}

/// The state of one agent run.
pub struct AgentLoop {
    task: String,
    max_loops: u32,
    retry_attempts: u32,
    autosave: bool,
    stop_words: Vec<String>,
    /// The loop being run, counted from 0.
    loop_count: u32,
    /// The failed attempts of this loop.
    attempt: u32,
    prompt: String,
    last_text: String,
    task_complete: bool,
    prev_eval: bool,
    phase: LoopPhase,
}

impl AgentLoop {
    pub closed spec fn spec_phase(&self) -> LoopPhase {
        self.phase
    }

    pub closed spec fn spec_loop(&self) -> nat {
        self.loop_count as nat
    }

    pub closed spec fn spec_attempt(&self) -> nat {
        self.attempt as nat
    }

    pub closed spec fn spec_prompt(&self) -> Seq<char> {
        self.prompt@
    }

    pub closed spec fn spec_last(&self) -> Seq<char> {
        self.last_text@
    }

    pub closed spec fn spec_complete(&self) -> bool {
        self.task_complete
    }

    pub closed spec fn spec_prev_eval(&self) -> bool {
        self.prev_eval
    }

    pub closed spec fn spec_task(&self) -> Seq<char> {
        self.task@
    }

    pub closed spec fn spec_max_loops(&self) -> nat {
        self.max_loops as nat
    }

    pub closed spec fn spec_retries(&self) -> nat {
        self.retry_attempts as nat
    }

    pub closed spec fn spec_autosave(&self) -> bool {
        self.autosave
    }

    pub closed spec fn spec_stop_words(&self) -> Seq<String> {
        self.stop_words@
    }

    pub closed spec fn wf(&self) -> bool {
        &&& self.loop_count <= self.max_loops
        &&& self.attempt <= self.retry_attempts
        &&& self.phase is Chatting ==> self.attempt < self.retry_attempts
        &&& (self.phase is Chatting || self.phase is LoopSave || self.phase is RetrySave) ==> self.loop_count
            < self.max_loops
        &&& (self.phase is Opening || self.phase is LoopSave || self.phase is RetrySave || self.phase is Closing)
            ==> self.autosave
    }

    /// The position of the awaited chat among all the chats a run may make:
    /// loop by loop, attempt by attempt.
    pub open spec fn chat_index(&self) -> int {
        (self.spec_loop() * self.spec_retries() + self.spec_attempt()) as int
    }

    /// A run asks the model at most `max_loops * retry_attempts` times: every
    /// awaited chat has an index below that bound, and each step from one
    /// awaited chat to the next (a failed attempt, or a reply that enters the
    /// next loop) raises the index.
    pub proof fn lemma_chats_bounded(prev: &AgentLoop, next: &AgentLoop)
        requires
            prev.wf(),
            prev.spec_phase() is Chatting,
            next.spec_retries() == prev.spec_retries(),
            next.spec_loop() == prev.spec_loop() && next.spec_attempt() == prev.spec_attempt() + 1
                || next.spec_loop() > prev.spec_loop() && next.spec_attempt() == 0,
        ensures
            0 <= prev.chat_index() < prev.spec_max_loops() * prev.spec_retries(),
            next.chat_index() > prev.chat_index(),
    {
        let r = prev.spec_retries() as int;
        let l = prev.spec_loop() as int;
        let a = prev.spec_attempt() as int;
        let m = prev.spec_max_loops() as int;
        let nl = next.spec_loop() as int;
        assert(0 <= l * r + a < m * r) by (nonlinear_arith)
            requires
                0 <= l < m,
                0 <= a < r,
        {
            assert(l * r + a < l * r + r);
            assert((l + 1) * r <= m * r);
        }
        if next.spec_loop() > prev.spec_loop() {
            assert(nl * r >= l * r + r) by (nonlinear_arith)
                requires
                    nl >= l + 1,
                    r >= 0,
            {
            }
        }
    }

    /// The settings of `next` are those of `prev`.
    pub open spec fn same_settings(prev: &AgentLoop, next: &AgentLoop) -> bool {
        &&& next.spec_task() == prev.spec_task()
        &&& next.spec_max_loops() == prev.spec_max_loops()
        &&& next.spec_retries() == prev.spec_retries()
        &&& next.spec_autosave() == prev.spec_autosave()
        &&& next.spec_stop_words() == prev.spec_stop_words()
    }

    /// The run closes: the closing save is asked for if autosave is on, else
    /// the run is over.
    pub open spec fn closes(next: &AgentLoop, a: LoopAction) -> bool {
        if next.spec_autosave() {
            next.spec_phase() is Closing && a is SaveState
        } else {
            next.spec_phase() is Done && a is Finish
        }
    }

    /// Loop `loop_idx` is entered with the given evaluator flag, last text and
    /// completion: the run closes once every loop has run or the task is
    /// complete, or when no attempt is allowed; else the model is asked with
    /// the loop's prompt, and the evaluator flag is cleared.
    pub open spec fn enters(
        next: &AgentLoop,
        a: LoopAction,
        loop_idx: nat,
        prev_eval: bool,
        last: Seq<char>,
        complete: bool,
    ) -> bool {
        &&& next.wf()
        &&& next.spec_loop() == loop_idx
        &&& next.spec_last() == last
        &&& next.spec_complete() == complete
        &&& if loop_idx >= next.spec_max_loops() || complete {
            next.spec_prev_eval() == prev_eval && Self::closes(next, a)
        } else {
            let p = loop_prompt(prev_eval, loop_idx, next.spec_max_loops(), next.spec_task(), last);
            &&& !next.spec_prev_eval()
            &&& next.spec_attempt() == 0
            &&& if next.spec_retries() == 0 {
                Self::closes(next, a)
            } else {
                &&& next.spec_phase() is Chatting
                &&& next.spec_prompt() == p
                &&& a matches LoopAction::Chat { prompt } && prompt@ == p
            }
        }
    }

    /// After a loop's reply (and save): the run closes on a stop word in the
    /// last text, else the next loop is entered.
    pub open spec fn continues(prev: &AgentLoop, next: &AgentLoop, a: LoopAction) -> bool {
        if stop_hit(prev.spec_stop_words(), prev.spec_last()) {
            &&& next.wf()
            &&& next.spec_loop() == prev.spec_loop()
            &&& next.spec_last() == prev.spec_last()
            &&& next.spec_complete() == prev.spec_complete()
            &&& next.spec_prev_eval() == prev.spec_prev_eval()
            &&& Self::closes(next, a)
        } else {
            Self::enters(next, a, prev.spec_loop() + 1, prev.spec_prev_eval(), prev.spec_last(), prev.spec_complete())
        }
    }

    /// Start a run of `task`. Stop words end the run when a response holds
    /// one; `autosave` saves the task state at the start, after each loop and
    /// at the end.
    pub fn start(task: String, max_loops: u32, retry_attempts: u32, autosave: bool, stop_words: Vec<String>) -> (r: (
        AgentLoop,
        LoopAction,
    ))
        ensures
            r.0.spec_task() == task@,
            r.0.spec_max_loops() == max_loops,
            r.0.spec_retries() == retry_attempts,
            r.0.spec_autosave() == autosave,
            r.0.spec_stop_words() == stop_words@,
            autosave ==> r.0.wf() && r.0.spec_phase() is Opening && r.1 is SaveState && r.0.spec_loop() == 0
                && r.0.spec_last().len() == 0 && !r.0.spec_complete() && !r.0.spec_prev_eval(),
            !autosave ==> Self::enters(&r.0, r.1, 0, false, Seq::empty(), false),
    {
        let mut s = AgentLoop {
            task,
            max_loops,
            retry_attempts,
            autosave,
            stop_words,
            loop_count: 0,
            attempt: 0,
            prompt: String::new(),
            last_text: String::new(),
            task_complete: false,
            prev_eval: false,
            phase: LoopPhase::Opening,
        };
        if autosave {
            (s, LoopAction::SaveState)
        } else {
            s.phase = LoopPhase::Done;
            let a = s.enter_loop();
            (s, a)
        }
    }

    fn close(&mut self) -> (a: LoopAction)
        requires
            old(self).loop_count <= old(self).max_loops,
            old(self).attempt <= old(self).retry_attempts,
        ensures
            final(self).wf(),
            Self::closes(final(self), a),
            Self::same_settings(old(self), final(self)),
            final(self).loop_count == old(self).loop_count,
            final(self).attempt == old(self).attempt,
            final(self).prompt == old(self).prompt,
            final(self).last_text == old(self).last_text,
            final(self).task_complete == old(self).task_complete,
            final(self).prev_eval == old(self).prev_eval,
    {
        if self.autosave {
            self.phase = LoopPhase::Closing;
            LoopAction::SaveState
        } else {
            self.phase = LoopPhase::Done;
            LoopAction::Finish
        }
    }

    fn enter_loop(&mut self) -> (a: LoopAction)
        requires
            old(self).loop_count <= old(self).max_loops,
            old(self).attempt <= old(self).retry_attempts,
        ensures
            Self::same_settings(old(self), final(self)),
            Self::enters(
                final(self),
                a,
                old(self).spec_loop(),
                old(self).spec_prev_eval(),
                old(self).spec_last(),
                old(self).spec_complete(),
            ),
    {
        if self.loop_count >= self.max_loops || self.task_complete {
            return self.close();
        }
        let p = if self.prev_eval {
            evaluator_prompt(self.last_text.as_str())
        } else if self.loop_count > 0 {
            later_loop_prompt(self.loop_count, self.max_loops, self.task.as_str())
        } else {
            String::new()
        };
        self.prev_eval = false;
        self.attempt = 0;
        if self.retry_attempts == 0 {
            return self.close();
        }
        self.prompt = p.clone();
        self.phase = LoopPhase::Chatting;
        LoopAction::Chat { prompt: p }
    }

    /// The model answered. Returns the text to add to the task's history as
    /// the agent's message, and what to do next: save if autosave is on;
    /// then stop on a stop word, or go on with the next loop.
    pub fn chat_replied(&mut self, reply: ChatResponse, statuses: Vec<Option<TaskStatus>>) -> (r: (String, LoopAction))
        requires
            old(self).wf(),
            old(self).spec_phase() is Chatting,
        ensures
            final(self).wf(),
            Self::same_settings(old(self), final(self)),
            ({
                let e = reply_effect(reply, statuses@, old(self).spec_last());
                let flag = e.3 && !e.2;
                &&& r.0@ == e.1
                &&& (old(self).spec_autosave() ==> {
                    &&& final(self).spec_phase() is LoopSave
                    &&& r.1 is SaveState
                    &&& final(self).spec_loop() == old(self).spec_loop()
                    &&& final(self).spec_last() == e.0
                    &&& final(self).spec_complete() == e.2
                    &&& final(self).spec_prev_eval() == flag
                })
                &&& (!old(self).spec_autosave() ==> if stop_hit(old(self).spec_stop_words(), e.0) {
                    &&& final(self).spec_loop() == old(self).spec_loop()
                    &&& final(self).spec_last() == e.0
                    &&& final(self).spec_complete() == e.2
                    &&& final(self).spec_prev_eval() == flag
                    &&& Self::closes(final(self), r.1)
                } else {
                    Self::enters(final(self), r.1, old(self).spec_loop() + 1, flag, e.0, e.2)
                })
            }),
    {
        let (l, memory, complete, called) = absorb_reply(&reply, &statuses, self.last_text.as_str());
        self.last_text = l;
        self.task_complete = complete;
        self.prev_eval = called && !complete;
        if self.autosave {
            self.phase = LoopPhase::LoopSave;
            (memory, LoopAction::SaveState)
        } else {
            let a = self.after_loop();
            (memory, a)
        }
    }

    fn after_loop(&mut self) -> (a: LoopAction)
        requires
            old(self).loop_count < old(self).max_loops,
            old(self).attempt <= old(self).retry_attempts,
        ensures
            Self::same_settings(old(self), final(self)),
            Self::continues(old(self), final(self), a),
    {
        if is_response_complete(&self.stop_words, self.last_text.as_str()) {
            return self.close();
        }
        self.loop_count = self.loop_count + 1;
        self.enter_loop()
    }

    /// The model could not be reached or answered with an error: the attempt
    /// counts as failed. With autosave on, the state is saved (quietly) first;
    /// then the same prompt is tried again while attempts remain, else the run
    /// closes.
    pub fn chat_failed(&mut self) -> (a: LoopAction)
        requires
            old(self).wf(),
            old(self).spec_phase() is Chatting,
        ensures
            final(self).wf(),
            Self::same_settings(old(self), final(self)),
            final(self).spec_loop() == old(self).spec_loop(),
            final(self).spec_last() == old(self).spec_last(),
            final(self).spec_complete() == old(self).spec_complete(),
            final(self).spec_prev_eval() == old(self).spec_prev_eval(),
            final(self).spec_prompt() == old(self).spec_prompt(),
            final(self).spec_attempt() == old(self).spec_attempt() + 1,
            old(self).spec_autosave() ==> final(self).spec_phase() is RetrySave && a is SaveStateQuietly,
            !old(self).spec_autosave() ==> if final(self).spec_attempt() < final(self).spec_retries() {
                final(self).spec_phase() is Chatting && (a matches LoopAction::Chat { prompt } && prompt@
                    == old(self).spec_prompt())
            } else {
                Self::closes(final(self), a)
            },
    {
        self.attempt = self.attempt + 1;
        if self.autosave {
            self.phase = LoopPhase::RetrySave;
            LoopAction::SaveStateQuietly
        } else {
            self.retry_or_close()
        }
    }

    fn retry_or_close(&mut self) -> (a: LoopAction)
        requires
            old(self).loop_count < old(self).max_loops,
            old(self).attempt <= old(self).retry_attempts,
        ensures
            final(self).wf(),
            Self::same_settings(old(self), final(self)),
            final(self).spec_loop() == old(self).spec_loop(),
            final(self).spec_last() == old(self).spec_last(),
            final(self).spec_complete() == old(self).spec_complete(),
            final(self).spec_prev_eval() == old(self).spec_prev_eval(),
            final(self).spec_prompt() == old(self).spec_prompt(),
            final(self).spec_attempt() == old(self).spec_attempt(),
            if old(self).spec_attempt() < old(self).spec_retries() {
                final(self).spec_phase() is Chatting && (a matches LoopAction::Chat { prompt } && prompt@
                    == old(self).spec_prompt())
            } else {
                Self::closes(final(self), a)
            },
    {
        if self.attempt < self.retry_attempts {
            self.phase = LoopPhase::Chatting;
            LoopAction::Chat { prompt: self.prompt.clone() }
        } else {
            self.close()
        }
    }

    /// The save that was asked for is done (for a quiet save: done or failed).
    /// After the opening save the first loop is entered; after a loop's save
    /// the run stops on a stop word or goes on; after a quiet save the prompt
    /// is tried again while attempts remain; after the closing save the run
    /// is over.
    pub fn saved(&mut self) -> (a: LoopAction)
        requires
            old(self).wf(),
        ensures
            final(self).wf(),
            Self::same_settings(old(self), final(self)),
            old(self).spec_phase() is Opening ==> Self::enters(
                final(self),
                a,
                old(self).spec_loop(),
                old(self).spec_prev_eval(),
                old(self).spec_last(),
                old(self).spec_complete(),
            ),
            old(self).spec_phase() is LoopSave ==> Self::continues(old(self), final(self), a),
            old(self).spec_phase() is RetrySave ==> {
                &&& final(self).spec_loop() == old(self).spec_loop()
                &&& final(self).spec_last() == old(self).spec_last()
                &&& final(self).spec_complete() == old(self).spec_complete()
                &&& final(self).spec_prev_eval() == old(self).spec_prev_eval()
                &&& if old(self).spec_attempt() < old(self).spec_retries() {
                    final(self).spec_phase() is Chatting && (a matches LoopAction::Chat { prompt } && prompt@
                        == old(self).spec_prompt())
                } else {
                    Self::closes(final(self), a)
                }
            },
            old(self).spec_phase() is Closing ==> final(self).spec_phase() is Done && a is Finish,
            (old(self).spec_phase() is Chatting || old(self).spec_phase() is Done) ==> final(self).spec_phase()
                == old(self).spec_phase() && a is Finish,
    {
        match self.phase {
            LoopPhase::Opening => self.enter_loop(),
            LoopPhase::Closing => {
                self.phase = LoopPhase::Done;
                LoopAction::Finish
            },
            LoopPhase::RetrySave => self.retry_or_close(),
            LoopPhase::LoopSave => self.after_loop(),
            LoopPhase::Chatting => LoopAction::Finish,
            LoopPhase::Done => LoopAction::Finish,
        }
    }
}

/// The prompt after the task evaluator asked for more work.
fn evaluator_prompt(context: &str) -> (r: String)
    ensures
        r@ == evaluator_followup(context@),
{
    cat3(
        "You previously called task_evaluator and indicated the task was not complete. The required next step or context provided was: '",
        context,
        "'. Focus ONLY on addressing this context. DO NOT call task_evaluator again in this turn. Proceed with the task based on the context.",
    )
}

/// The prompt of a later loop.
fn later_loop_prompt(loop_count: u32, max_loops: u32, task: &str) -> (r: String)
    requires
        loop_count < max_loops,
    ensures
        r@ == "Now, you are in loop "@ + decimal_text((loop_count + 1) as nat) + " of "@ + decimal_text(max_loops as nat)
            + later_loop_body() + task@,
{
    let mut s = owned("Now, you are in loop ");
    let n = decimal((loop_count + 1) as u64);
    s.append(n.as_str());
    s.append(" of ");
    let m = decimal(max_loops as u64);
    s.append(m.as_str());
    s.append(
        ", The dialogue will terminate upon reaching maximum iteration count. You must:\n                         - Complete the user's task before termination\n                         - Optimize loop efficiency\n                         - Minimize resource consumption through minimal iterations\n\n                        You should consider to use tools if they can help, but only if they are relevant to the task and are necessary for the task.\n                        origin task:\n",
    );
    s.append(task);
    s
}

} // verus!
