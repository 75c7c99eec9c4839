//! A basic agent: provider endpoints, the reading of a model's
//! reply, the output formats, and the two run loops (the memory-driven loop
//! with its analysis step, and the configured loop with retries). Each loop
//! is a state machine whose actions the caller performs.
use vstd::prelude::*;
use crate::text::{cat, cat3, contains_text, decimal, has_infix, owned, trim};
#[allow(unused_imports)]
use crate::text::{decimal_text, trim_text};
use crate::rearrange::{entry_texts, join_lines, join_with_newlines, pairs_view};
use crate::json::{
    chat_content, json_document, json_message, message_is, number_is, parse_json, read_chat_content, text_is, Json,
};

verus! {

/// Output types of the configured agent.
pub enum OutputType {
    String,
    List,
    Json,
    Dict,
    Yaml,
}

/// A language model the configured agent runs tasks with.
pub trait LanguageModel {
    /// Run a task; an error carries the model's message.
    fn run(&self, task: &str) -> Result<String, String>;

    /// The model's name.
    fn name(&self) -> &str;
}

/// A model that echoes the task it is given.
pub struct SimpleLLM {
    name: String,
}

impl SimpleLLM {
    pub closed spec fn spec_name(&self) -> Seq<char> {
        self.name@
    }

    pub fn new(name: &str) -> (r: SimpleLLM)
        ensures
            r.spec_name() == name@,
    {
        SimpleLLM { name: owned(name) }
    }
}

impl LanguageModel for SimpleLLM {
    fn run(&self, task: &str) -> (r: Result<String, String>)
        ensures
            r matches Ok(s) && s@ == "Processed task: "@ + task@,
    {
        Ok(cat("Processed task: ", task))
    }

    fn name(&self) -> (r: &str)
        ensures
            r@ == self.spec_name(),
    {
        self.name.as_str()
    }
}

/// The model providers the memory-driven agent can call.
pub enum ModelProvider {
    OpenAI,
    Anthropic,
    Google,
    HuggingFace,
    Other(String),
}

/// The API keys known for each provider.
pub struct ProviderKeys {
    pub openai_api_key: String,
    pub anthropic_api_key: Option<String>,
    pub google_api_key: Option<String>,
    pub huggingface_api_key: Option<String>,
    pub other_api_key: Option<String>,
}

/// The endpoint and key of a provider, or the message of the missing key.
pub open spec fn endpoint_spec(provider: ModelProvider, keys: ProviderKeys) -> Result<(Seq<char>, Seq<char>), Seq<char>> {
    match provider {
        ModelProvider::OpenAI => Ok(("https://api.openai.com/v1/chat/completions"@, keys.openai_api_key@)),
        ModelProvider::Anthropic => match keys.anthropic_api_key {
            Some(k) => Ok(("https://api.anthropic.com/v1/complete"@, k@)),
            None => Err("ANTHROPIC_API_KEY is not set"@),
        },
        ModelProvider::Google => match keys.google_api_key {
            Some(k) => Ok(("https://api.google.com/v1/generate"@, k@)),
            None => Err("GOOGLE_API_KEY is not set"@),
        },
        ModelProvider::HuggingFace => match keys.huggingface_api_key {
            Some(k) => Ok(("https://api-inference.huggingface.co/models/your-model"@, k@)),
            None => Err("HUGGINGFACE_API_KEY is not set"@),
        },
        ModelProvider::Other(id) => match keys.other_api_key {
            Some(k) => Ok(("https://api."@ + id@ + ".com/v1/complete"@, k@)),
            None => Err("OTHER_API_KEY is not set for provider "@ + id@),
        },
    }
}

fn key_of(k: &Option<String>) -> (r: Option<String>)
    ensures
        r == *k,
{
    match k {
        Some(x) => Some(x.clone()),
        None => None,
    }
}

/// The URL to call for a provider and the API key to send, or the message of
/// the missing key.
pub fn provider_endpoint(provider: &ModelProvider, keys: &ProviderKeys) -> (r: Result<(String, String), String>)
    ensures
        match (r, endpoint_spec(*provider, *keys)) {
            (Ok((u, k)), Ok((su, sk))) => u@ == su && k@ == sk,
            (Err(m), Err(sm)) => m@ == sm,
            _ => false,
        },
{
    match provider {
        ModelProvider::OpenAI => Ok(
            (owned("https://api.openai.com/v1/chat/completions"), keys.openai_api_key.clone()),
        ),
        ModelProvider::Anthropic => match key_of(&keys.anthropic_api_key) {
            Some(k) => Ok((owned("https://api.anthropic.com/v1/complete"), k)),
            None => Err(owned("ANTHROPIC_API_KEY is not set")),
        },
        ModelProvider::Google => match key_of(&keys.google_api_key) {
            Some(k) => Ok((owned("https://api.google.com/v1/generate"), k)),
            None => Err(owned("GOOGLE_API_KEY is not set")),
        },
        ModelProvider::HuggingFace => match key_of(&keys.huggingface_api_key) {
            Some(k) => Ok((owned("https://api-inference.huggingface.co/models/your-model"), k)),
            None => Err(owned("HUGGINGFACE_API_KEY is not set")),
        },
        ModelProvider::Other(id) => match key_of(&keys.other_api_key) {
            Some(k) => Ok((cat3("https://api.", id.as_str(), ".com/v1/complete"), k)),
            None => Err(cat("OTHER_API_KEY is not set for provider ", id.as_str())),
        },
    }
}

/// How many times a model call is tried.
pub const MAX_RETRIES: usize = 3;

/// After failed attempt number `attempt` (counted from 1), whether to try again.
pub fn retry_after_failure(attempt: usize) -> (r: bool)
    ensures
        r == (attempt < MAX_RETRIES),
{
    attempt < MAX_RETRIES
}

/// What a provider's reply yields: for OpenAI, the assistant's message at
/// `choices[0].message.content`; for the others, the whole reply.
pub open spec fn reply_text_spec(provider: ModelProvider, reply: Seq<char>) -> Result<Seq<char>, Seq<char>> {
    match provider {
        ModelProvider::OpenAI => match json_document(reply) {
            None => Err("Failed to parse JSON response"@),
            Some(doc) => match chat_content(doc) {
                None => Err("Failed to extract assistant's response from JSON"@),
                Some(c) => Ok(c),
            },
        },
        _ => Ok(reply),
    }
}

/// The body of a request to a provider, without its temperature (a number
/// the caller adds). For OpenAI: the model, the messages (the system prompt
/// as a `developer` message, if any, then the prompt as the `user`
/// message) and `max_tokens` 50. For the others: the prompt, `max_tokens` 50
/// and the system prompt, if any.
pub open spec fn request_body_is(
    r: Json,
    provider: ModelProvider,
    prompt: Seq<char>,
    system_prompt: Option<Seq<char>>,
    model: Seq<char>,
) -> bool {
    match provider {
        ModelProvider::OpenAI => r matches Json::Object(es) && es.len() == 3 && es@[0].0@ == "model"@ && text_is(
            es@[0].1,
            model,
        ) && es@[1].0@ == "messages"@ && es@[2].0@ == "max_tokens"@ && number_is(es@[2].1, "50"@) && (
        es@[1].1 matches Json::Array(ms) && match system_prompt {
            Some(sp) => ms.len() == 2 && message_is(ms@[0], "developer"@, sp) && message_is(ms@[1], "user"@, prompt),
            None => ms.len() == 1 && message_is(ms@[0], "user"@, prompt),
        }),
        _ => r matches Json::Object(es) && es@.len() >= 2 && es@[0].0@ == "prompt"@ && text_is(es@[0].1, prompt)
            && es@[1].0@ == "max_tokens"@ && number_is(es@[1].1, "50"@) && match system_prompt {
            Some(sp) => es.len() == 3 && es@[2].0@ == "system_prompt"@ && text_is(es@[2].1, sp),
            None => es.len() == 2,
        },
    }
}

pub open spec fn opt_text(o: Option<String>) -> Option<Seq<char>> {
    match o {
        Some(s) => Some(s@),
        None => None,
    }
}

/// The body of a request to a provider (see `request_body_is`).
pub fn request_body(provider: &ModelProvider, prompt: &str, system_prompt: &Option<String>, model: &str) -> (r: Json)
    ensures
        request_body_is(r, *provider, prompt@, opt_text(*system_prompt), model@),
{
    proof {
        reveal_strlit("model");
        reveal_strlit("messages");
        reveal_strlit("max_tokens");
        reveal_strlit("50");
        reveal_strlit("prompt");
        reveal_strlit("system_prompt");
    }
    match provider {
        ModelProvider::OpenAI => {
            let mut messages: Vec<Json> = Vec::new();
            match system_prompt {
                Some(sp) => messages.push(json_message("developer", sp.as_str())),
                None => {},
            }
            messages.push(json_message("user", prompt));
            let mut es: Vec<(String, Json)> = Vec::new();
            es.push((owned("model"), Json::Text(owned(model))));
            es.push((owned("messages"), Json::Array(messages)));
            es.push((owned("max_tokens"), Json::Number(owned("50"))));
            Json::Object(es)
        },
        _ => {
            let mut es: Vec<(String, Json)> = Vec::new();
            es.push((owned("prompt"), Json::Text(owned(prompt))));
            es.push((owned("max_tokens"), Json::Number(owned("50"))));
            match system_prompt {
                Some(sp) => es.push((owned("system_prompt"), Json::Text(sp.clone()))),
                None => {},
            }
            Json::Object(es)
        },
    }
}

/// Read a provider's reply (see `reply_text_spec`).
pub fn reply_text(provider: &ModelProvider, reply: &str) -> (r: Result<String, String>)
    ensures
        match (r, reply_text_spec(*provider, reply@)) {
            (Ok(t), Ok(st)) => t@ == st,
            (Err(m), Err(sm)) => m@ == sm,
            _ => false,
        },
{
    match provider {
        ModelProvider::OpenAI => match parse_json(reply) {
            None => Err(owned("Failed to parse JSON response")),
            Some(doc) => match read_chat_content(&doc) {
                None => Err(owned("Failed to extract assistant's response from JSON")),
                Some(c) => Ok(c),
            },
        },
        _ => Ok(owned(reply)),
    }
}

/// The prompt of the default analysis model.
pub fn analysis_prompt(response: &str) -> (r: String)
    ensures
        r@ == "Please analyze the following response: "@ + response@,
{
    cat("Please analyze the following response: ", response)
}

/// The text `str::to_lowercase` gives (Unicode lower case).
pub uninterp spec fn lower_text(s: Seq<char>) -> Seq<char>;

/// `str::to_lowercase`; the Unicode case mapping is only named here.
#[verifier::external_body]
fn lowercase(s: &str) -> (r: String)
    ensures
        r@ == lower_text(s@),
{
    s.to_lowercase()
}

/// A response stops the memory-driven loop when its lower case holds "stop".
pub open spec fn says_stop(response: Seq<char>) -> bool {
    has_infix(lower_text(response), "stop"@)
}

/// Whether a response stops the memory-driven loop.
pub fn is_stop_response(response: &str) -> (r: bool)
    ensures
        r == says_stop(response@),
{
    let l = lowercase(response);
    contains_text(l.as_str(), "stop")
}

/// The task a run works on: the one given, unless it is missing or blank.
pub open spec fn chosen_task(task: Option<String>) -> Seq<char> {
    match task {
        Some(t) => if trim_text(t@).len() > 0 {
            t@
        } else {
            "Auto-generated task prompt"@
        },
        None => "Auto-generated task prompt"@,
    }
}

/// What the caller of the memory-driven loop must do next.
pub enum MemoryAction {
    /// Call the model (OpenAI) with this prompt.
    CallModel { prompt: String },
    /// Ask the analysis model about this response.
    Analyze { response: String },
    /// Wait this many milliseconds.
    Pause { millis: u64 },
    /// Wait this many seconds.
    Sleep { seconds: u64 },
    /// The run is over with this output.
    Finish { output: String },
}

/// Where the memory-driven loop stands.
pub enum MemoryPhase {
    Calling,
    Analyzing,
    AfterFailure,
    Interval,
    Done,
}

/// The delay after a failed model call, in milliseconds.
pub const RETRY_DELAY_MS: u64 = 500;

/// The state of a run of the memory-driven agent.
pub struct MemoryRun {
    agent_name: String,
    max_loops: u32,
    retry_attempts: u32,
    loop_interval: Option<u64>,
    memory: Vec<(String, String)>,
    loop_count: u32,
    attempt: u32,
    prompt: String,
    responses: Vec<String>,
    last: String,
    phase: MemoryPhase,
}

/// The prompt built from the memory: one `"role: content"` line per entry.
pub open spec fn memory_prompt(memory: Seq<(Seq<char>, Seq<char>)>) -> Seq<char> {
    join_lines(entry_texts(memory))
}

impl MemoryRun {
    pub closed spec fn spec_memory(&self) -> Seq<(Seq<char>, Seq<char>)> {
        pairs_view(self.memory@)
    }

    pub closed spec fn spec_responses(&self) -> Seq<Seq<char>> {
        self.responses@.map_values(|x: String| x@)
    }

    pub closed spec fn spec_loop(&self) -> nat {
        self.loop_count as nat
    }

    pub closed spec fn spec_attempt(&self) -> nat {
        self.attempt as nat
    }

    pub closed spec fn spec_phase(&self) -> MemoryPhase {
        self.phase
    }

    pub closed spec fn spec_prompt(&self) -> Seq<char> {
        self.prompt@
    }

    pub closed spec fn spec_last(&self) -> Seq<char> {
        self.last@
    }

    pub closed spec fn spec_agent(&self) -> Seq<char> {
        self.agent_name@
    }

    pub closed spec fn spec_max_loops(&self) -> nat {
        self.max_loops as nat
    }

    pub closed spec fn spec_retries(&self) -> nat {
        self.retry_attempts as nat
    }

    pub closed spec fn spec_interval(&self) -> Option<u64> {
        self.loop_interval
    }

    pub closed spec fn wf(&self) -> bool {
        &&& self.loop_count <= self.max_loops
        &&& self.attempt <= self.retry_attempts
    }

    /// The settings of `next` are those of `prev`.
    pub open spec fn same_settings(prev: &MemoryRun, next: &MemoryRun) -> bool {
        &&& next.spec_agent() == prev.spec_agent()
        &&& next.spec_max_loops() == prev.spec_max_loops()
        &&& next.spec_retries() == prev.spec_retries()
        &&& next.spec_interval() == prev.spec_interval()
    }

    /// The run is over: its output is the responses, one per line.
    pub open spec fn finishes(next: &MemoryRun, a: MemoryAction) -> bool {
        &&& next.spec_phase() is Done
        &&& a matches MemoryAction::Finish { output } && output@ == join_lines(next.spec_responses())
    }

    /// Loop `loop_count + 1` is entered with this memory: once every loop has
    /// run the run is over; else the count goes up and the model is called
    /// with the memory as prompt, if any attempt is allowed.
    pub open spec fn enters(
        next: &MemoryRun,
        a: MemoryAction,
        loop_count: nat,
        memory: Seq<(Seq<char>, Seq<char>)>,
        responses: Seq<Seq<char>>,
    ) -> bool {
        &&& next.wf()
        &&& next.spec_memory() == memory
        &&& next.spec_responses() == responses
        &&& if loop_count >= next.spec_max_loops() {
            Self::finishes(next, a)
        } else {
            &&& next.spec_loop() == loop_count + 1
            &&& if next.spec_retries() == 0 {
                Self::finishes(next, a)
            } else {
                &&& next.spec_phase() is Calling
                &&& next.spec_attempt() == 1
                &&& next.spec_prompt() == memory_prompt(memory)
                &&& a matches MemoryAction::CallModel { prompt } && prompt@ == memory_prompt(memory)
            }
        }
    }

    /// Start a run: the task (see `chosen_task`) enters the memory under the
    /// user's name, and the first loop is entered.
    pub fn start(
        task: Option<String>,
        user_name: String,
        agent_name: String,
        max_loops: u32,
        retry_attempts: u32,
        loop_interval: Option<u64>,
    ) -> (r: (MemoryRun, MemoryAction))
        ensures
            r.0.spec_agent() == agent_name@,
            r.0.spec_max_loops() == max_loops,
            r.0.spec_retries() == retry_attempts,
            r.0.spec_interval() == loop_interval,
            Self::enters(&r.0, r.1, 0, seq![(user_name@, chosen_task(task))], Seq::empty()),
    {
        let ghost chosen = chosen_task(task);
        let t = match task {
            Some(t) => {
                let tr = trim(t.as_str());
                if tr.unicode_len() > 0 {
                    t
                } else {
                    owned("Auto-generated task prompt")
                }
            },
            None => owned("Auto-generated task prompt"),
        };
        let mut memory: Vec<(String, String)> = Vec::new();
        memory.push((user_name, t));
        let mut run = MemoryRun {
            agent_name,
            max_loops,
            retry_attempts,
            loop_interval,
            memory,
            loop_count: 0,
            attempt: 0,
            prompt: String::new(),
            responses: Vec::new(),
            last: String::new(),
            phase: MemoryPhase::Done,
        };
        proof {
            assert(pairs_view(run.memory@) =~= seq![(user_name@, chosen)]);
            assert(run.responses@.map_values(|x: String| x@) =~= Seq::<Seq<char>>::empty());
        }
        let a = run.enter_loop();
        (run, a)
    }

    fn finish(&mut self) -> (a: MemoryAction)
        requires
            old(self).loop_count <= old(self).max_loops,
            old(self).attempt <= old(self).retry_attempts,
        ensures
            Self::same_settings(old(self), final(self)),
            final(self).wf(),
            final(self).memory == old(self).memory,
            final(self).responses == old(self).responses,
            final(self).loop_count == old(self).loop_count,
            Self::finishes(final(self), a),
    {
        self.phase = MemoryPhase::Done;
        MemoryAction::Finish { output: join_with_newlines(&self.responses) }
    }

    fn enter_loop(&mut self) -> (a: MemoryAction)
        requires
            old(self).loop_count <= old(self).max_loops,
            old(self).attempt <= old(self).retry_attempts,
        ensures
            Self::same_settings(old(self), final(self)),
            Self::enters(final(self), a, old(self).spec_loop(), old(self).spec_memory(), old(self).spec_responses()),
    {
        if self.loop_count >= self.max_loops {
            return self.finish();
        }
        self.loop_count = self.loop_count + 1;
        let mut lines: Vec<String> = Vec::new();
        let mut i: usize = 0;
        while i < self.memory.len()
            invariant
                i <= self.memory.len(),
                lines.len() == i,
                forall|k: int|
                    0 <= k < i ==> (#[trigger] lines@[k])@ == self.memory@[k].0@ + ": "@ + self.memory@[k].1@,
            decreases self.memory.len() - i,
        {
            let mut e = self.memory[i].0.clone();
            e.append(": ");
            e.append(self.memory[i].1.as_str());
            lines.push(e);
            i = i + 1;
        }
        proof {
            assert(lines@.map_values(|x: String| x@) =~= entry_texts(pairs_view(self.memory@)));
        }
        let p = join_with_newlines(&lines);
        if self.retry_attempts == 0 {
            self.attempt = 0;
            return self.finish();
        }
        self.attempt = 1;
        self.prompt = p.clone();
        self.phase = MemoryPhase::Calling;
        MemoryAction::CallModel { prompt: p }
    }

    /// The model answered: the response enters the memory under the agent's
    /// name and the list of responses, and the analysis model is asked about it.
    pub fn model_replied(&mut self, response: String) -> (a: MemoryAction)
        requires
            old(self).wf(),
            old(self).spec_phase() is Calling,
        ensures
            final(self).wf(),
            Self::same_settings(old(self), final(self)),
            final(self).spec_loop() == old(self).spec_loop(),
            final(self).spec_memory() == old(self).spec_memory().push((old(self).spec_agent(), response@)),
            final(self).spec_responses() == old(self).spec_responses().push(response@),
            final(self).spec_last() == response@,
            final(self).spec_phase() is Analyzing,
            a matches MemoryAction::Analyze { response: x } && x@ == response@,
    {
        self.memory.push((self.agent_name.clone(), response.clone()));
        self.responses.push(response.clone());
        self.last = response.clone();
        self.phase = MemoryPhase::Analyzing;
        proof {
            assert(pairs_view(self.memory@) =~= pairs_view(old(self).memory@).push((self.agent_name@, response@)));
            assert(self.responses@.map_values(|x: String| x@) =~= old(self).responses@.map_values(|x: String| x@).push(
                response@,
            ));
        }
        MemoryAction::Analyze { response }
    }

    /// The model call failed: pause, then try again or give up.
    pub fn model_failed(&mut self) -> (a: MemoryAction)
        requires
            old(self).wf(),
            old(self).spec_phase() is Calling,
        ensures
            final(self).wf(),
            Self::same_settings(old(self), final(self)),
            final(self).spec_loop() == old(self).spec_loop(),
            final(self).spec_memory() == old(self).spec_memory(),
            final(self).spec_responses() == old(self).spec_responses(),
            final(self).spec_attempt() == old(self).spec_attempt(),
            final(self).spec_prompt() == old(self).spec_prompt(),
            final(self).spec_phase() is AfterFailure,
            a matches MemoryAction::Pause { millis } && millis == RETRY_DELAY_MS,
    {
        self.phase = MemoryPhase::AfterFailure;
        MemoryAction::Pause { millis: RETRY_DELAY_MS }
    }

    /// The analysis model answered: the analysis enters the memory under the
    /// agent's name; a response that says "stop" ends the run; else the loop
    /// interval is slept, if any, before the next loop.
    pub fn analyzed(&mut self, analysis: String) -> (a: MemoryAction)
        requires
            old(self).wf(),
            old(self).spec_phase() is Analyzing,
        ensures
            final(self).wf(),
            Self::same_settings(old(self), final(self)),
            ({
                let mem = old(self).spec_memory().push((old(self).spec_agent(), analysis@));
                if says_stop(old(self).spec_last()) {
                    final(self).spec_memory() == mem && final(self).spec_responses() == old(self).spec_responses()
                        && Self::finishes(final(self), a)
                } else {
                    match old(self).spec_interval() {
                        Some(secs) => {
                            &&& final(self).spec_memory() == mem
                            &&& final(self).spec_responses() == old(self).spec_responses()
                            &&& final(self).spec_loop() == old(self).spec_loop()
                            &&& final(self).spec_phase() is Interval
                            &&& a matches MemoryAction::Sleep { seconds } && seconds == secs
                        },
                        None => Self::enters(final(self), a, old(self).spec_loop(), mem, old(self).spec_responses()),
                    }
                }
            }),
    {
        self.memory.push((self.agent_name.clone(), analysis.clone()));
        proof {
            assert(pairs_view(self.memory@) =~= pairs_view(old(self).memory@).push((self.agent_name@, analysis@)));
        }
        if is_stop_response(self.last.as_str()) {
            return self.finish();
        }
        match self.loop_interval {
            Some(secs) => {
                self.phase = MemoryPhase::Interval;
                MemoryAction::Sleep { seconds: secs }
            },
            None => self.enter_loop(),
        }
    }

    /// The pause or sleep asked for is over: after a failure, the model is
    /// called again while attempts remain, else the run is over; after the
    /// loop interval, the next loop is entered.
    pub fn paused(&mut self) -> (a: MemoryAction)
        requires
            old(self).wf(),
        ensures
            final(self).wf(),
            Self::same_settings(old(self), final(self)),
            old(self).spec_phase() is AfterFailure ==> if old(self).spec_attempt() < old(self).spec_retries() {
                &&& final(self).spec_phase() is Calling
                &&& final(self).spec_attempt() == old(self).spec_attempt() + 1
                &&& final(self).spec_memory() == old(self).spec_memory()
                &&& final(self).spec_responses() == old(self).spec_responses()
                &&& final(self).spec_loop() == old(self).spec_loop()
                &&& a matches MemoryAction::CallModel { prompt } && prompt@ == old(self).spec_prompt()
            } else {
                final(self).spec_responses() == old(self).spec_responses() && Self::finishes(final(self), a)
            },
            old(self).spec_phase() is Interval ==> Self::enters(
                final(self),
                a,
                old(self).spec_loop(),
                old(self).spec_memory(),
                old(self).spec_responses(),
            ),
            (old(self).spec_phase() is Calling || old(self).spec_phase() is Analyzing || old(self).spec_phase() is Done)
                ==> final(self).spec_phase() == old(self).spec_phase() && a is Pause,
    {
        match self.phase {
            MemoryPhase::AfterFailure => {
                if self.attempt < self.retry_attempts {
                    self.attempt = self.attempt + 1;
                    self.phase = MemoryPhase::Calling;
                    MemoryAction::CallModel { prompt: self.prompt.clone() }
                } else {
                    self.finish()
                }
            },
            MemoryPhase::Interval => self.enter_loop(),
            _ => MemoryAction::Pause { millis: 0 },
        }
    }
}

/// Errors of the configured agent.
pub enum AgentError {
    ConfigError(String),
    ExecutionError(String),
    IoError(String),
    SerializationError(String),
}

/// A configuration is refused when it allows no loop or no token.
pub fn validate_config(max_loops: usize, max_tokens: usize) -> (r: Result<(), AgentError>)
    ensures
        max_loops == 0 ==> (r matches Err(AgentError::ConfigError(m)) && m@ == "max_loops must be greater than 0"@),
        max_loops > 0 && max_tokens == 0 ==> (r matches Err(AgentError::ConfigError(m)) && m@
            == "max_tokens must be greater than 0"@),
        max_loops > 0 && max_tokens > 0 ==> r is Ok,
{
    if max_loops == 0 {
        return Err(AgentError::ConfigError(owned("max_loops must be greater than 0")));
    }
    if max_tokens == 0 {
        return Err(AgentError::ConfigError(owned("max_tokens must be greater than 0")));
    }
    Ok(())
}

/// The lower-case hexadecimal digit for `d`, below 16.
pub open spec fn hex_digit_char(d: int) -> char {
    if d < 10 {
        (('0' as int) + d) as char
    } else {
        (('a' as int) + d - 10) as char
    }
}

/// How serde_json writes a character inside a JSON string: `"` and `\` are
/// escaped, the control characters below U+0020 are written `\b \t \n \f
/// \r` or `\u00` with two lower-case hexadecimal digits, and every other
/// character stands as it is.
pub open spec fn json_escape(c: char) -> Seq<char> {
    let n = c as int;
    if c == '"' {
        seq!['\\', '"']
    } else if c == '\\' {
        seq!['\\', '\\']
    } else if n == 8 {
        seq!['\\', 'b']
    } else if n == 9 {
        seq!['\\', 't']
    } else if n == 10 {
        seq!['\\', 'n']
    } else if n == 12 {
        seq!['\\', 'f']
    } else if n == 13 {
        seq!['\\', 'r']
    } else if n < 32 {
        seq!['\\', 'u', '0', '0', hex_digit_char(n / 16), hex_digit_char(n % 16)]
    } else {
        seq![c]
    }
}

/// The characters of a string, each as serde_json writes it.
pub open spec fn json_escaped(s: Seq<char>) -> Seq<char>
    decreases s.len(),
{
    if s.len() == 0 {
        Seq::empty()
    } else {
        json_escaped(s.drop_last()) + json_escape(s.last())
    }
}

proof fn lemma_json_escape_char(c: char)
    ensures
        forall|k: int| 0 <= k < json_escape(c).len() ==> #[trigger] json_escape(c)[k] as int >= 32,
        json_escape(c).len() >= 1,
        c != '"' && c != '\\' && c as int >= 32 ==> json_escape(c) == seq![c],
{
    let n = c as int;
    if n < 32 && n != 8 && n != 9 && n != 10 && n != 12 && n != 13 {
        assert(0 <= n / 16 < 2);
        assert(0 <= n % 16 < 16);
        assert(hex_digit_char(n / 16) as int >= 48);
        assert(hex_digit_char(n % 16) as int >= 48);
    }
}

/// Escaped text holds no raw control character (below U+0020) and is never
/// shorter than the text; text without `"`, `\` or control characters is
/// written as it is.
pub proof fn lemma_json_escaped_law(s: Seq<char>)
    ensures
        forall|k: int| 0 <= k < json_escaped(s).len() ==> #[trigger] json_escaped(s)[k] as int >= 32,
        json_escaped(s).len() >= s.len(),
        (forall|k: int| 0 <= k < s.len() ==> #[trigger] s[k] != '"' && s[k] != '\\' && s[k] as int >= 32)
            ==> json_escaped(s) == s,
    decreases s.len(),
{
    if s.len() > 0 {
        let p = s.drop_last();
        lemma_json_escaped_law(p);
        lemma_json_escape_char(s.last());
        let ep = json_escaped(p);
        let el = json_escape(s.last());
        let e = json_escaped(s);
        assert(e == ep + el);
        assert forall|k: int| 0 <= k < e.len() implies #[trigger] e[k] as int >= 32 by {
            if k < ep.len() {
                assert(e[k] == ep[k]);
            } else {
                assert(e[k] == el[k - ep.len()]);
            }
        }
        if forall|k: int| 0 <= k < s.len() ==> #[trigger] s[k] != '"' && s[k] != '\\' && s[k] as int >= 32 {
            assert forall|k: int| 0 <= k < p.len() implies #[trigger] p[k] != '"' && p[k] != '\\' && p[k] as int
                >= 32 by {
                assert(p[k] == s[k]);
            }
            assert(s.last() == s[s.len() - 1]);
            assert(e =~= s);
        }
    }
}

/// The text serde_json gives for a string: the escaped string in double quotes.
pub open spec fn json_quoted(s: Seq<char>) -> Seq<char> {
    seq!['"'] + json_escaped(s) + seq!['"']
}

/// The text serde_yaml gives for a string (a YAML document).
pub uninterp spec fn yaml_text(s: Seq<char>) -> Seq<char>;

/// `serde_json::to_string` of a string, which cannot fail (no map, and a
/// string's `Serialize` does not fail); it writes the string quoted, with
/// the escapes of serde_json's compact formatter (see `json_escape`).
#[verifier::external_body]
fn json_of_text(s: &String) -> (r: Option<String>)
    ensures
        r is Some,
        r->0@ == json_quoted(s@),
{
    serde_json::to_string(s).ok()
}

/// `serde_yaml::to_string` of a string, with the error's message; the text
/// is serde_yaml's and only named here. Its documentation says it fails only
/// when the value's `Serialize` returns an error, which a string's never
/// does, so the call succeeds.
#[verifier::external_body]
fn yaml_of_text(s: &String) -> (r: Result<String, String>)
    ensures
        r is Ok,
        r->Ok_0@ == yaml_text(s@),
{
    match serde_yaml::to_string(s) {
        Ok(t) => Ok(t),
        Err(e) => Err(e.to_string()),
    }
}

/// Format the final response as the output type asks: as is, in brackets,
/// as a JSON string, or as a YAML document.
pub fn format_output(output_type: &OutputType, response: String) -> (r: Result<String, AgentError>)
    ensures
        match output_type {
            OutputType::String => r matches Ok(t) && t@ == response@,
            OutputType::List => r matches Ok(t) && t@ == "["@ + response@ + "]"@,
            OutputType::Json | OutputType::Dict => r matches Ok(t) && t@ == json_quoted(response@),
            OutputType::Yaml => r matches Ok(t) && t@ == yaml_text(response@),
        },
{
    match output_type {
        OutputType::String => Ok(response),
        OutputType::List => Ok(cat3("[", response.as_str(), "]")),
        OutputType::Json | OutputType::Dict => match json_of_text(&response) {
            Some(t) => Ok(t),
            None => Err(AgentError::SerializationError(String::new())),
        },
        OutputType::Yaml => match yaml_of_text(&response) {
            Ok(t) => Ok(t),
            Err(m) => Err(AgentError::SerializationError(m)),
        },
    }
}

/// What the caller of a configured agent's run must do next.
pub enum ConfigAction {
    /// Run the model on the task.
    CallModel,
    /// Wait this many seconds.
    Sleep { seconds: u64 },
    /// The run succeeded with this final response (not yet formatted).
    Finish { response: String },
    /// The run failed with this message.
    Fail { message: String },
}

/// Where a configured run stands.
pub enum ConfigPhase {
    Calling,
    RetryWait,
    LoopWait,
    Done,
}

/// The state of a run of the configured agent: `max_loops` loops, each of
/// which calls the model until it answers, at most `retry_attempts` times.
pub struct ConfigRun {
    max_loops: usize,
    retry_attempts: usize,
    retry_interval: u64,
    loop_interval: u64,
    loop_count: usize,
    attempts: usize,
    final_response: String,
    history: Vec<String>,
    phase: ConfigPhase,
}

/// The message of a loop whose attempts all failed.
pub open spec fn exhausted_message(attempts: nat, last_error: Seq<char>) -> Seq<char> {
    "Failed after "@ + decimal_text(attempts) + " attempts. Last error: "@ + last_error
}

impl ConfigRun {
    pub closed spec fn spec_loop(&self) -> nat {
        self.loop_count as nat
    }

    pub closed spec fn spec_attempts(&self) -> nat {
        self.attempts as nat
    }

    pub closed spec fn spec_history(&self) -> Seq<Seq<char>> {
        self.history@.map_values(|x: String| x@)
    }

    pub closed spec fn spec_final(&self) -> Seq<char> {
        self.final_response@
    }

    pub closed spec fn spec_phase(&self) -> ConfigPhase {
        self.phase
    }

    pub closed spec fn spec_max_loops(&self) -> nat {
        self.max_loops as nat
    }

    pub closed spec fn spec_retries(&self) -> nat {
        self.retry_attempts as nat
    }

    pub closed spec fn spec_retry_interval(&self) -> u64 {
        self.retry_interval
    }

    pub closed spec fn spec_loop_interval(&self) -> u64 {
        self.loop_interval
    }

    pub closed spec fn wf(&self) -> bool {
        &&& 0 < self.retry_attempts
        &&& self.loop_count <= self.max_loops
        &&& self.attempts < self.retry_attempts
        &&& (self.phase is Calling || self.phase is RetryWait) ==> self.loop_count < self.max_loops
    }

    /// The settings of `next` are those of `prev`.
    /// The position of the awaited model call among all the calls a run may
    /// make: loop by loop, attempt by attempt.
    pub open spec fn call_index(&self) -> int {
        (self.spec_loop() * self.spec_retries() + self.spec_attempts()) as int
    }

    /// A run calls the model at most `max_loops * retry_attempts` times: every
    /// awaited call has an index below that bound, and each step from one
    /// awaited call to the next (a failed attempt, or a later loop) raises the
    /// index.
    pub proof fn lemma_calls_bounded(prev: &ConfigRun, next: &ConfigRun)
        requires
            prev.wf(),
            prev.spec_phase() is Calling,
            next.spec_retries() == prev.spec_retries(),
            next.spec_loop() == prev.spec_loop() && next.spec_attempts() == prev.spec_attempts() + 1
                || next.spec_loop() > prev.spec_loop() && next.spec_attempts() == 0,
        ensures
            0 <= prev.call_index() < prev.spec_max_loops() * prev.spec_retries(),
            next.call_index() > prev.call_index(),
    {
        let r = prev.spec_retries() as int;
        let l = prev.spec_loop() as int;
        let a = prev.spec_attempts() as int;
        let m = prev.spec_max_loops() as int;
        let nl = next.spec_loop() as int;
        assert(0 <= l * r + a < m * r) by (nonlinear_arith)
            requires
                0 <= l < m,
                0 <= a < r,
        {
            assert(l * r + a < l * r + r);
            assert((l + 1) * r <= m * r);
        }
        if next.spec_loop() > prev.spec_loop() {
            assert(nl * r >= l * r + r) by (nonlinear_arith)
                requires
                    nl >= l + 1,
                    r >= 0,
            {
            }
        }
    }

    pub open spec fn same_settings(prev: &ConfigRun, next: &ConfigRun) -> bool {
        &&& next.spec_max_loops() == prev.spec_max_loops()
        &&& next.spec_retries() == prev.spec_retries()
        &&& next.spec_retry_interval() == prev.spec_retry_interval()
        &&& next.spec_loop_interval() == prev.spec_loop_interval()
    }

    /// Start a run of `max_loops` loops (see `validate_config`), each allowed
    /// `retry_attempts` calls; with no attempt allowed there would be no
    /// error to report, so at least one is required.
    pub fn start(max_loops: usize, retry_attempts: usize, retry_interval: u64, loop_interval: u64) -> (r: (
        ConfigRun,
        ConfigAction,
    ))
        requires
            retry_attempts > 0,
        ensures
            r.0.wf(),
            r.0.spec_max_loops() == max_loops,
            r.0.spec_retries() == retry_attempts,
            r.0.spec_retry_interval() == retry_interval,
            r.0.spec_loop_interval() == loop_interval,
            r.0.spec_loop() == 0,
            r.0.spec_history().len() == 0,
            max_loops > 0 ==> r.0.spec_phase() is Calling && r.0.spec_attempts() == 0 && r.1 is CallModel,
            max_loops == 0 ==> r.0.spec_phase() is Done && (r.1 matches ConfigAction::Finish { response }
                && response@.len() == 0),
    {
        let run = ConfigRun {
            max_loops,
            retry_attempts,
            retry_interval,
            loop_interval,
            loop_count: 0,
            attempts: 0,
            final_response: String::new(),
            history: Vec::new(),
            phase: if max_loops > 0 {
                ConfigPhase::Calling
            } else {
                ConfigPhase::Done
            },
        };
        proof {
            assert(run.history@.map_values(|x: String| x@) =~= Seq::<Seq<char>>::empty());
        }
        if max_loops > 0 {
            (run, ConfigAction::CallModel)
        } else {
            (run, ConfigAction::Finish { response: String::new() })
        }
    }

    fn next_loop(&mut self) -> (a: ConfigAction)
        requires
            old(self).loop_count <= old(self).max_loops,
            0 < old(self).retry_attempts,
        ensures
            final(self).wf(),
            Self::same_settings(old(self), final(self)),
            final(self).loop_count == old(self).loop_count,
            final(self).history == old(self).history,
            final(self).final_response == old(self).final_response,
            if old(self).loop_count < old(self).max_loops {
                final(self).phase is Calling && final(self).attempts == 0 && a is CallModel
            } else {
                final(self).phase is Done && (a matches ConfigAction::Finish { response } && response
                    == old(self).final_response)
            },
    {
        self.attempts = 0;
        if self.loop_count < self.max_loops {
            self.phase = ConfigPhase::Calling;
            ConfigAction::CallModel
        } else {
            self.phase = ConfigPhase::Done;
            ConfigAction::Finish { response: self.final_response.clone() }
        }
    }

    /// The model answered: the response is kept as the latest and added to
    /// the history; the loop interval is slept if it is set, else the next
    /// loop starts (or the run finishes with this response).
    pub fn model_replied(&mut self, response: String) -> (a: ConfigAction)
        requires
            old(self).wf(),
            old(self).spec_phase() is Calling,
        ensures
            final(self).wf(),
            Self::same_settings(old(self), final(self)),
            final(self).spec_loop() == old(self).spec_loop() + 1,
            final(self).spec_history() == old(self).spec_history().push(response@),
            final(self).spec_final() == response@,
            old(self).spec_loop_interval() > 0 ==> final(self).spec_phase() is LoopWait && (a matches ConfigAction::Sleep {
                seconds,
            } && seconds == old(self).spec_loop_interval()),
            old(self).spec_loop_interval() == 0 ==> if final(self).spec_loop() < final(self).spec_max_loops() {
                final(self).spec_phase() is Calling && final(self).spec_attempts() == 0 && a is CallModel
            } else {
                final(self).spec_phase() is Done && (a matches ConfigAction::Finish { response: x } && x@
                    == response@)
            },
    {
        self.history.push(response.clone());
        self.final_response = response;
        self.loop_count = self.loop_count + 1;
        proof {
            assert(self.history@.map_values(|x: String| x@) =~= old(self).history@.map_values(|x: String| x@).push(
                self.final_response@,
            ));
        }
        if self.loop_interval > 0 {
            self.phase = ConfigPhase::LoopWait;
            self.attempts = 0;
            ConfigAction::Sleep { seconds: self.loop_interval }
        } else {
            self.next_loop()
        }
    }

    /// The model failed with `error`: after the last allowed attempt the run
    /// fails; before it, the retry interval is slept and the model is called
    /// again.
    pub fn model_failed(&mut self, error: &str) -> (a: ConfigAction)
        requires
            old(self).wf(),
            old(self).spec_phase() is Calling,
        ensures
            final(self).wf(),
            Self::same_settings(old(self), final(self)),
            final(self).spec_loop() == old(self).spec_loop(),
            final(self).spec_history() == old(self).spec_history(),
            if old(self).spec_attempts() + 1 < old(self).spec_retries() {
                &&& final(self).spec_attempts() == old(self).spec_attempts() + 1
                &&& final(self).spec_phase() is RetryWait
                &&& a matches ConfigAction::Sleep { seconds } && seconds == old(self).spec_retry_interval()
            } else {
                &&& old(self).spec_attempts() + 1 == old(self).spec_retries()
                &&& final(self).spec_phase() is Done
                &&& a matches ConfigAction::Fail { message } && message@ == exhausted_message(
                    old(self).spec_retries(),
                    error@,
                )
            },
    {
        let n = self.attempts + 1;
        if n < self.retry_attempts {
            self.attempts = n;
            self.phase = ConfigPhase::RetryWait;
            ConfigAction::Sleep { seconds: self.retry_interval }
        } else {
            self.phase = ConfigPhase::Done;
            let mut m = owned("Failed after ");
            let d = decimal(n as u64);
            m.append(d.as_str());
            m.append(" attempts. Last error: ");
            m.append(error);
            ConfigAction::Fail { message: m }
        }
    }

    /// The sleep asked for is over: after a failure the model is called
    /// again; after the loop interval the next loop starts (or the run
    /// finishes with the latest response).
    pub fn slept(&mut self) -> (a: ConfigAction)
        requires
            old(self).wf(),
        ensures
            final(self).wf(),
            Self::same_settings(old(self), final(self)),
            final(self).spec_loop() == old(self).spec_loop(),
            final(self).spec_history() == old(self).spec_history(),
            old(self).spec_phase() is RetryWait ==> final(self).spec_phase() is Calling && final(self).spec_attempts()
                == old(self).spec_attempts() && a is CallModel,
            old(self).spec_phase() is LoopWait ==> if old(self).spec_loop() < old(self).spec_max_loops() {
                final(self).spec_phase() is Calling && final(self).spec_attempts() == 0 && a is CallModel
            } else {
                final(self).spec_phase() is Done && (a matches ConfigAction::Finish { response } && response@
                    == old(self).spec_final())
            },
            (old(self).spec_phase() is Calling || old(self).spec_phase() is Done) ==> final(self).spec_phase()
                == old(self).spec_phase() && (a matches ConfigAction::Sleep { seconds } && seconds == 0),
    {
        match self.phase {
            ConfigPhase::RetryWait => {
                self.phase = ConfigPhase::Calling;
                ConfigAction::CallModel
            },
            ConfigPhase::LoopWait => self.next_loop(),
            _ => ConfigAction::Sleep { seconds: 0 },
        }
    }
}

} // verus!
