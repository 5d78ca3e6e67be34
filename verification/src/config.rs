//! The settings of a session.
use vstd::prelude::*;

use crate::json::{Json, JsonModel};
use crate::models::{models, Entry};

verus! {

/// A language server that the user has described.
pub struct UserServerDef {
    pub id: String,
    pub extensions: Vec<String>,
    pub binary: String,
    pub args: Vec<String>,
    pub root_markers: Vec<String>,
    pub env: Vec<Entry<String>>,
    pub initialization_options: Option<Json>,
    pub disabled: bool,
}

/// The model of a `UserServerDef`.
#[verifier::ext_equal]
pub ghost struct ServerDef {
    pub id: Seq<char>,
    pub extensions: Seq<Seq<char>>,
    pub binary: Seq<char>,
    pub args: Seq<Seq<char>>,
    pub root_markers: Seq<Seq<char>>,
    pub env: Seq<(Seq<char>, Seq<char>)>,
    pub initialization_options: Option<JsonModel>,
    pub disabled: bool,
}

impl DeepView for UserServerDef {
    type V = ServerDef;

    open spec fn deep_view(&self) -> ServerDef {
        ServerDef {
            id: self.id@,
            extensions: models(self.extensions@),
            binary: self.binary@,
            args: models(self.args@),
            root_markers: models(self.root_markers@),
            env: models(self.env@),
            initialization_options: self.initialization_options.deep_view(),
            disabled: self.disabled,
        }
    }
}

/// How texts are embedded for the semantic search.
pub struct SemanticBackendConfig {
    pub backend: String,
    pub model: String,
    pub base_url: Option<String>,
    pub api_key_env: Option<String>,
    pub timeout_ms: u64,
    pub max_batch_size: usize,
}

/// The model of a `SemanticBackendConfig`.
#[verifier::ext_equal]
pub ghost struct Semantic {
    pub backend: Seq<char>,
    pub model: Seq<char>,
    pub base_url: Option<Seq<char>>,
    pub api_key_env: Option<Seq<char>>,
    pub timeout_ms: u64,
    pub max_batch_size: usize,
}

impl DeepView for SemanticBackendConfig {
    type V = Semantic;

    open spec fn deep_view(&self) -> Semantic {
        Semantic {
            backend: self.backend@,
            model: self.model@,
            base_url: self.base_url.deep_view(),
            api_key_env: self.api_key_env.deep_view(),
            timeout_ms: self.timeout_ms,
            max_batch_size: self.max_batch_size,
        }
    }
}

/// The settings that a request can change.
pub struct Config {
    pub project_root: Option<String>,
    pub format_on_edit: bool,
    pub validate_on_edit: Option<String>,
    pub formatter: Vec<Entry<String>>,
    pub checker: Vec<Entry<String>>,
    pub restrict_to_project_root: bool,
    pub formatter_timeout_secs: u32,
    pub search_index: bool,
    pub semantic_search: bool,
    pub experimental_bash_rewrite: bool,
    pub experimental_bash_compress: bool,
    pub experimental_bash_background: bool,
    pub experimental_lsp_ty: bool,
    pub bash_permissions: bool,
    pub lsp_servers: Vec<UserServerDef>,
    pub disabled_lsp: Vec<String>,
    pub lsp_paths_extra: Vec<String>,
    pub lsp_auto_install_binaries: Vec<String>,
    pub lsp_inflight_installs: Vec<String>,
    pub search_index_max_file_size: u64,
    pub storage_dir: Option<String>,
    pub semantic: SemanticBackendConfig,
    pub max_callgraph_files: usize,
    pub max_background_bash_tasks: usize,
}

/// The model of a `Config`.
#[verifier::ext_equal]
pub ghost struct Settings {
    pub project_root: Option<Seq<char>>,
    pub format_on_edit: bool,
    pub validate_on_edit: Option<Seq<char>>,
    pub formatter: Seq<(Seq<char>, Seq<char>)>,
    pub checker: Seq<(Seq<char>, Seq<char>)>,
    pub restrict_to_project_root: bool,
    pub formatter_timeout_secs: u32,
    pub search_index: bool,
    pub semantic_search: bool,
    pub experimental_bash_rewrite: bool,
    pub experimental_bash_compress: bool,
    pub experimental_bash_background: bool,
    pub experimental_lsp_ty: bool,
    pub bash_permissions: bool,
    pub lsp_servers: Seq<ServerDef>,
    pub disabled_lsp: Seq<Seq<char>>,
    pub lsp_paths_extra: Seq<Seq<char>>,
    pub lsp_auto_install_binaries: Seq<Seq<char>>,
    pub lsp_inflight_installs: Seq<Seq<char>>,
    pub search_index_max_file_size: u64,
    pub storage_dir: Option<Seq<char>>,
    pub semantic: Semantic,
    pub max_callgraph_files: usize,
    pub max_background_bash_tasks: usize,
}

impl DeepView for Config {
    type V = Settings;

    open spec fn deep_view(&self) -> Settings {
        Settings {
            project_root: self.project_root.deep_view(),
            format_on_edit: self.format_on_edit,
            validate_on_edit: self.validate_on_edit.deep_view(),
            formatter: models(self.formatter@),
            checker: models(self.checker@),
            restrict_to_project_root: self.restrict_to_project_root,
            formatter_timeout_secs: self.formatter_timeout_secs,
            search_index: self.search_index,
            semantic_search: self.semantic_search,
            experimental_bash_rewrite: self.experimental_bash_rewrite,
            experimental_bash_compress: self.experimental_bash_compress,
            experimental_bash_background: self.experimental_bash_background,
            experimental_lsp_ty: self.experimental_lsp_ty,
            bash_permissions: self.bash_permissions,
            lsp_servers: models(self.lsp_servers@),
            disabled_lsp: models(self.disabled_lsp@),
            lsp_paths_extra: models(self.lsp_paths_extra@),
            lsp_auto_install_binaries: models(self.lsp_auto_install_binaries@),
            lsp_inflight_installs: models(self.lsp_inflight_installs@),
            search_index_max_file_size: self.search_index_max_file_size,
            storage_dir: self.storage_dir.deep_view(),
            semantic: self.semantic.deep_view(),
            max_callgraph_files: self.max_callgraph_files,
            max_background_bash_tasks: self.max_background_bash_tasks,
        }
    }
}

} // verus!
