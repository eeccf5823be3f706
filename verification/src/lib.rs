//! Memory subsystem of a coding agent: hierarchical AGENTS.md loading,
//! topic memories, the notepad, and the built-in memory tools.

pub mod text;
pub mod paths;
pub mod timestamps;
pub mod notepad;
pub mod claudemd;
pub mod includes;
pub mod memdir;
pub mod tool_spec;
pub mod tools;
pub mod auth;
