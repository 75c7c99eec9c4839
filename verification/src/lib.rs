//! Verified core of a multi-agent orchestration library.
pub mod agent_loop;
pub mod batch;
pub mod graph_model;
pub mod graph_store;
pub mod graph_workflow;
pub mod json;
pub mod basic_agent;
pub mod logging;
pub mod meme;
pub mod persistence;
pub mod rearrange;
pub mod router;
pub mod sequential;
pub mod task_hash;
pub mod text;
pub mod tool_schema;
pub mod tree;
