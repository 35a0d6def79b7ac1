//! Verified core of the harness plugins: prompt interpolation, terminal output
//! sanitizing, skill registry selection, process-table parsing and more.

pub mod text;
pub mod words;
pub mod interpolate;
pub mod sanitize;
pub mod sanitize_split;
pub mod skill;
pub mod attr_unescape;
pub mod num;
pub mod subprocess;
pub mod inspector;
pub mod tree;
pub mod terminal;
pub mod subagent;
pub mod time_context;
pub mod bash;
pub mod assemble;
pub mod token;
pub mod replay;
pub mod skill_file;
pub mod skill_tool;
pub mod child_run;
pub mod collect;
pub mod pty_send;
