//! The verified core of a chat-bot command executor: the command input
//! parser, the execution request pipeline around the remote compilation
//! backend, the process-wide shared-state registry, and the shard
//! readiness aggregation state machine.

pub mod format;
pub mod parser;
pub mod pipeline;
pub mod registry;
pub mod shards;
pub mod stats;
