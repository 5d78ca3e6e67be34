//! Decisions of a code-editing assistant: call graphs, structural edits, undo and
//! checkpoint stores, shell-command analysis and the texts that commands answer with.
pub mod ast_grep_lang;
pub mod backup;
pub mod bash_background;
pub mod bash_permissions;
pub mod bash_rewrite;
pub mod callgraph;
pub mod calls;
pub mod checkpoint;
pub mod commands;
pub mod config;
pub mod counts;
pub mod diff;
pub mod edit;
pub mod error;
pub mod groups;
pub mod json;
pub mod lang;
pub mod models;
pub mod order;
pub mod paths;
pub mod structural;
pub mod symbols;
pub mod syntax;
pub mod text;
