//! What the commands of a request decide and compute.
pub mod add_decorator;
pub mod add_derive;
pub mod add_import;
pub mod add_member;
pub mod add_struct_tags;
pub mod ast_replace;
pub mod ast_scope;
pub mod ast_search;
pub mod bash_tasks;
pub mod batch;
pub mod configure;
pub mod delete_file;
pub mod edit_history;
pub mod edit_match;
pub mod edit_symbol;
pub mod extract_function;
pub mod glob;
pub mod grep;
pub mod impact;
pub mod list_filters;
pub mod lsp;
pub mod lsp_diagnostics;
pub mod lsp_find_references;
pub mod lsp_goto_definition;
pub mod preview;
pub mod refusal;
pub mod target;
