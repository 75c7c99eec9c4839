# swarms_rs

A library for orchestrating LLM agents: graph workflows of agents, sequential
and rearranged flows, a swarm router, batch execution, tool-calling agent
loops and their configuration. The decisions of every orchestration are
written as verified state machines in Verus; the I/O around them (model
calls, files, timers, logging) is ordinary Rust.

## Layout

- `src/` — the verified library. Each orchestration is a state machine that
  takes an event (an agent's answer, a model reply, a timeout) and returns
  the next action; the contracts state what each step does, and proof
  functions state the laws that hold across steps (a workflow graph stays
  acyclic, each agent of a workflow runs once, disconnecting undoes
  connecting, compressed data decompresses to itself, ...).
  - `graph_model.rs`, `graph_store.rs`, `graph_workflow.rs` — the agent
    graph (on `petgraph`), its editing operations and the workflow run.
  - `agent_loop.rs` — the chat/tool-call loop of an agent.
  - `basic_agent.rs` — configured and memory-backed agents, providers,
    retries and output formats.
  - `rearrange.rs`, `sequential.rs`, `router.rs`, `batch.rs`, `tree.rs` —
    the other swarm kinds.
  - `tool_schema.rs` — the rules behind the tool attribute: argument
    parsing, JSON types and the checks on a tool's parameters.
  - `persistence.rs`, `task_hash.rs`, `logging.rs`, `text.rs` — compression,
    state file names, log messages and text helpers.
- `app/` — the runtime around the library: async runners that perform the
  actions the state machines ask for, HTTP model calls, files, logging and
  serde copies of the library's types.
- `tests/` — tests of the library on concrete values.
