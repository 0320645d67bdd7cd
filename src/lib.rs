//! Input-driven batch process runner: tokenizing, batching, and the state
//! machine of the interactive process supervisor.

pub mod split_input;
pub mod supervisor;
pub mod exec;
