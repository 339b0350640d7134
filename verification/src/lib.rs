//! Guarded elevation of commands: the allowlist policy, the confirmation
//! phrases of its admin tools, the launch plans of each elevation mode, and
//! the text that a run answers with.
pub mod text;
pub mod order;
pub mod request;
pub mod policy;
pub mod elevation;
pub mod output;
pub mod tools;
pub mod protocol;
pub mod readback;
pub mod laws;
