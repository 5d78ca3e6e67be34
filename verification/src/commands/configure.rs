//! Settings that a request changes, and what is told of missing tools.
use vstd::prelude::*;

use crate::commands::configure::servers::{parse_lsp_servers, servers_of};
use crate::commands::configure::settings::{
    extra_paths, lowered_text_set, parse_disabled_lsp, parse_lsp_paths_extra,
    parse_semantic_config, parse_string_set, semantic_of, storage_dir_of, text_set,
    validate_storage_dir, PathResolution, Resolution,
};
use crate::commands::configure::tools::{
    detect_missing_lsp_binaries, detect_missing_tools_for_languages, missing_for, scan_defined,
    scan_files, FileServer, MissingServer, MissingTool, ProjectFiles, ToolFacts,
};
use crate::commands::refusal::{invalid, reject, Refusal, RefusalModel};
use crate::config::{Config, Semantic, ServerDef, Settings};
use crate::json::{json_text, Json, Member};
use crate::lang::{detect_language, path_lang, LangId};
use crate::models::{
    lemma_table_get_set, lemma_table_get_set_other, models, set_entry, table_get, table_set, Entry,
};
use crate::order::sorted;
use crate::paths::{path_components, path_under, starts_with_path};
use crate::text::{decimal, decimal_text, owned, same, text2, text5, texts};

pub mod servers;
pub mod settings;
pub mod tools;

verus! {

/// What has to be looked up before a request can be applied.
pub struct ConfigureFacts {
    /// Whether the project root that is asked for is a directory.
    pub root_is_dir: bool,
    /// What the paths of `lsp_paths_extra` are once links are followed.
    pub resolved: Vec<Entry<PathResolution>>,
    /// The names of the semantic backends that there are.
    pub backends: Vec<String>,
    /// What is wrong with the semantic base URL that is asked for.
    pub url_fault: Option<String>,
}

/// The model of a `ConfigureFacts`.
pub ghost struct Facts {
    pub root_is_dir: bool,
    pub resolved: Seq<(Seq<char>, Resolution)>,
    pub backends: Seq<Seq<char>>,
    pub url_fault: Option<Seq<char>>,
}

impl View for ConfigureFacts {
    type V = Facts;

    open spec fn view(&self) -> Facts {
        Facts {
            root_is_dir: self.root_is_dir,
            resolved: models(self.resolved@),
            backends: texts(self.backends@),
            url_fault: self.url_fault.deep_view(),
        }
    }
}

/// What came of applying the settings: the settings as they stand then, the directory that
/// backups move to, and why the rest was not applied.
pub ghost struct Settled {
    pub settings: Settings,
    pub backup_dir: Option<Seq<char>>,
    pub fault: Option<Seq<char>>,
}

/// A given value, or the one that stands now.
pub open spec fn given<T>(value: Option<T>, now: T) -> T {
    match value {
        Some(v) => v,
        None => now,
    }
}

/// The validation that is asked for.
pub open spec fn validation(p: Json, now: Option<Seq<char>>) -> Option<Seq<char>> {
    match p.field("validate_on_edit"@) {
        Some(Json::Bool(on)) => Some(
            if on {
                "syntax"@
            } else {
                "off"@
            },
        ),
        Some(Json::Text(s)) => Some(
            if s@ == "true"@ {
                "syntax"@
            } else if s@ == "false"@ {
                "off"@
            } else {
                s@
            },
        ),
        _ => now,
    }
}

/// A table with the texts among the first `n` members put in; other members are passed
/// over.
pub open spec fn overridden(
    t: Seq<(Seq<char>, Seq<char>)>,
    members: Seq<Member>,
    n: int,
) -> Seq<(Seq<char>, Seq<char>)>
    decreases n,
{
    if n <= 0 || n > members.len() {
        t
    } else {
        let before = overridden(t, members, n - 1);
        match members[n - 1].value.text() {
            Some(s) => table_set(before, members[n - 1].key@, s),
            None => before,
        }
    }
}

/// A table with the texts of a member that is an object put in.
pub open spec fn with_overrides(t: Seq<(Seq<char>, Seq<char>)>, p: Json, key: Seq<char>) -> Seq<
    (Seq<char>, Seq<char>),
> {
    match p.field(key) {
        Some(Json::Object(members)) => overridden(t, members@, members@.len() as int),
        _ => t,
    }
}

fn apply_overrides(t: &mut Vec<Entry<String>>, p: &Json, key: &str)
    ensures
        models(final(t)@) == with_overrides(models(old(t)@), *p, key@),
{
    match p.get(key) {
        Some(Json::Object(members)) => {
            let ghost start = models(t@);
            let mut i: usize = 0;
            while i < members.len()
                invariant
                    i <= members.len(),
                    models(t@) == overridden(start, members@, i as int),
                decreases members.len() - i,
            {
                match members[i].value.as_text() {
                    Some(s) => {
                        set_entry(t, owned(members[i].key.as_str()), owned(s));
                    },
                    None => {},
                }
                i = i + 1;
            }
        },
        _ => {},
    }
}

fn flag_or(p: &Json, key: &str, now: bool) -> (r: bool)
    ensures
        r == given(p.flag_field(key@), now),
{
    match p.get_flag(key) {
        Some(b) => b,
        None => now,
    }
}

/// The settings of editing.
pub open spec fn with_editing(s: Settings, p: Json) -> Settings {
    Settings {
        format_on_edit: given(p.flag_field("format_on_edit"@), s.format_on_edit),
        validate_on_edit: validation(p, s.validate_on_edit),
        formatter: with_overrides(s.formatter, p, "formatter"@),
        restrict_to_project_root: given(
            p.flag_field("restrict_to_project_root"@),
            s.restrict_to_project_root,
        ),
        ..s
    }
}

/// The features that can be switched on and off.
pub open spec fn with_features(s: Settings, p: Json) -> Settings {
    Settings {
        checker: with_overrides(s.checker, p, "checker"@),
        search_index: given(p.flag_field("search_index"@), s.search_index),
        semantic_search: given(p.flag_field("semantic_search"@), s.semantic_search),
        experimental_bash_rewrite: given(
            p.flag_field("experimental_bash_rewrite"@),
            s.experimental_bash_rewrite,
        ),
        experimental_bash_compress: given(
            p.flag_field("experimental_bash_compress"@),
            s.experimental_bash_compress,
        ),
        experimental_bash_background: given(
            p.flag_field("experimental_bash_background"@),
            s.experimental_bash_background,
        ),
        experimental_lsp_ty: given(p.flag_field("experimental_lsp_ty"@), s.experimental_lsp_ty),
        ..s
    }
}

/// The formatter's time in seconds, from 1 to 600.
pub open spec fn timeout_of(p: Json) -> Result<Option<u32>, Seq<char>> {
    match p.unsigned_field("formatter_timeout_secs"@) {
        None => Ok(None),
        Some(v) => if v == 0 || v > 600 {
            Err("configure: formatter_timeout_secs must be in 1..=600, got "@ + decimal(v as nat))
        } else {
            Ok(Some(v as u32))
        },
    }
}

/// The outcome where a fault ends the application.
pub open spec fn halted(s: Settings, backup_dir: Option<Seq<char>>, fault: Seq<char>) -> Settled {
    Settled { settings: s, backup_dir, fault: Some(fault) }
}

/// A number that must be positive; any other value is told as it was given.
pub open spec fn positive(p: Json, key: Seq<char>) -> Result<Option<u64>, Seq<char>> {
    match p.field(key) {
        None => Ok(None),
        Some(raw) => match raw.unsigned() {
            Some(n) if n >= 1 => Ok(Some(n)),
            _ => Err(
                key + " must be a positive integer (>= 1); got "@ + json_text(raw.model()),
            ),
        },
    }
}

fn read_positive(p: &Json, key: &str) -> (r: Result<Option<u64>, String>)
    ensures
        match (r, positive(*p, key@)) {
            (Ok(n), Ok(m)) => n == m,
            (Err(e), Err(m)) => e@ == m,
            _ => false,
        },
{
    match p.get(key) {
        None => Ok(None),
        Some(raw) => {
            match raw.as_unsigned() {
                Some(n) => {
                    if n >= 1 {
                        return Ok(Some(n));
                    }
                },
                None => {},
            }
            let mut m = text2(key, " must be a positive integer (>= 1); got ");
            m.append(raw.to_text().as_str());
            Err(m)
        },
    }
}

/// The last settings: the limits on call graphs and on background tasks.
#[verifier::opaque]
pub open spec fn settled_limits(s: Settings, p: Json, backup_dir: Option<Seq<char>>) -> Settled {
    match positive(p, "max_callgraph_files"@) {
        Err(m) => halted(s, backup_dir, m),
        Ok(files) => {
            let s = Settings {
                max_callgraph_files: match files {
                    Some(n) => n as usize,
                    None => s.max_callgraph_files,
                },
                ..s
            };
            match positive(p, "max_background_bash_tasks"@) {
                Err(m) => halted(s, backup_dir, m),
                Ok(None) => Settled { settings: s, backup_dir, fault: None },
                Ok(Some(n)) => if n > usize::MAX {
                    halted(
                        s,
                        backup_dir,
                        "max_background_bash_tasks"@
                            + " must be a positive integer (>= 1); got "@ + decimal(n as nat),
                    )
                } else {
                    Settled {
                        settings: Settings { max_background_bash_tasks: n as usize, ..s },
                        backup_dir,
                        fault: None,
                    }
                },
            }
        },
    }
}

fn settle_limits(config: &mut Config, p: &Json) -> (r: Option<String>)
    ensures
        ({
            let want = settled_limits(old(config).deep_view(), *p, None);
            final(config).deep_view() == want.settings && r.deep_view() == want.fault
        }),
{
    proof {
        reveal(settled_limits);
    }
    match read_positive(p, "max_callgraph_files") {
        Err(m) => {
            return Some(m);
        },
        Ok(Some(n)) => {
            config.max_callgraph_files = #[verifier::truncate] (n as usize);
        },
        Ok(None) => {},
    }
    match read_positive(p, "max_background_bash_tasks") {
        Err(m) => Some(m),
        Ok(Some(n)) => {
            if n > usize::MAX as u64 {
                let mut m = text2(
                    "max_background_bash_tasks",
                    " must be a positive integer (>= 1); got ",
                );
                m.append(decimal_text(n).as_str());
                return Some(m);
            }
            config.max_background_bash_tasks = n as usize;
            None
        },
        Ok(None) => None,
    }
}

/// The semantic search, and what comes behind it.
#[verifier::opaque]
pub open spec fn settled_semantic(
    s: Settings,
    p: Json,
    f: Facts,
    backup_dir: Option<Seq<char>>,
) -> Settled {
    match p.field("semantic"@) {
        None => settled_limits(s, p, backup_dir),
        Some(v) => match semantic_of(v, s.semantic, f.backends, f.url_fault) {
            Err(m) => halted(s, backup_dir, m),
            Ok(semantic) => settled_limits(Settings { semantic, ..s }, p, backup_dir),
        },
    }
}

/// The storage directory, and what comes behind it.
#[verifier::opaque]
pub open spec fn settled_storage(s: Settings, p: Json, f: Facts) -> Settled {
    let s = Settings {
        search_index_max_file_size: given(
            p.unsigned_field("search_index_max_file_size"@),
            s.search_index_max_file_size,
        ),
        ..s
    };
    match p.text_field("storage_dir"@) {
        None => settled_semantic(s, p, f, None),
        Some(raw) => match storage_dir_of(raw) {
            Err(m) => halted(s, None, m),
            Ok(dir) => settled_semantic(Settings { storage_dir: Some(dir), ..s }, p, f, Some(dir)),
        },
    }
}

fn settle_semantic(config: &mut Config, p: &Json, f: &ConfigureFacts) -> (r: Option<String>)
    ensures
        ({
            let want = settled_semantic(old(config).deep_view(), *p, f@, None);
            final(config).deep_view() == want.settings && r.deep_view() == want.fault
        }),
{
    proof {
        reveal(settled_semantic);
    }
    match p.get("semantic") {
        Some(v) => {
            let fault = match &f.url_fault {
                Some(s) => Some(s.as_str()),
                None => None,
            };
            match parse_semantic_config(v, &config.semantic, &f.backends, fault) {
                Err(m) => {
                    return Some(m);
                },
                Ok(semantic) => {
                    config.semantic = semantic;
                },
            }
        },
        None => {},
    }
    settle_limits(config, p)
}

proof fn lemma_backup_dir(s: Settings, p: Json, f: Facts, dir: Option<Seq<char>>)
    ensures
        settled_semantic(s, p, f, dir) == (Settled {
            backup_dir: dir,
            ..settled_semantic(s, p, f, None)
        }),
{
    reveal(settled_semantic);
    reveal(settled_limits);
}

fn settle_storage(config: &mut Config, p: &Json, f: &ConfigureFacts) -> (r: (
    Option<String>,
    Option<String>,
))
    ensures
        ({
            let want = settled_storage(old(config).deep_view(), *p, f@);
            final(config).deep_view() == want.settings && r.0.deep_view() == want.backup_dir
                && r.1.deep_view() == want.fault
        }),
{
    proof {
        reveal(settled_storage);
    }
    match p.get_unsigned("search_index_max_file_size") {
        Some(n) => {
            config.search_index_max_file_size = n;
        },
        None => {},
    }
    let mut backup_dir: Option<String> = None;
    match p.get_text("storage_dir") {
        Some(raw) => match validate_storage_dir(raw) {
            Err(m) => {
                return (None, Some(m));
            },
            Ok(dir) => {
                config.storage_dir = Some(owned(dir.as_str()));
                backup_dir = Some(dir);
            },
        },
        None => {},
    }
    proof {
        lemma_backup_dir(config.deep_view(), *p, f@, backup_dir.deep_view());
    }
    let fault = settle_semantic(config, p, f);
    (backup_dir, fault)
}

/// The installs of language servers, and what comes behind them.
#[verifier::opaque]
pub open spec fn settled_installs(s: Settings, p: Json, f: Facts) -> Settled {
    match p.field("lsp_auto_install_binaries"@) {
        None => settled_inflight(s, p, f),
        Some(v) => match text_set(v, "lsp_auto_install_binaries"@) {
            Err(m) => halted(s, None, m),
            Ok(set) => settled_inflight(Settings { lsp_auto_install_binaries: set, ..s }, p, f),
        },
    }
}

/// The installs of language servers that are on their way, and what comes behind them.
#[verifier::opaque]
pub open spec fn settled_inflight(s: Settings, p: Json, f: Facts) -> Settled {
    match p.field("lsp_inflight_installs"@) {
        None => settled_storage(s, p, f),
        Some(v) => match text_set(v, "lsp_inflight_installs"@) {
            Err(m) => halted(s, None, m),
            Ok(set) => settled_storage(Settings { lsp_inflight_installs: set, ..s }, p, f),
        },
    }
}

fn settle_inflight(config: &mut Config, p: &Json, f: &ConfigureFacts) -> (r: (
    Option<String>,
    Option<String>,
))
    ensures
        ({
            let want = settled_inflight(old(config).deep_view(), *p, f@);
            final(config).deep_view() == want.settings && r.0.deep_view() == want.backup_dir
                && r.1.deep_view() == want.fault
        }),
{
    proof {
        reveal(settled_inflight);
    }
    match p.get("lsp_inflight_installs") {
        Some(v) => match parse_string_set(v, "lsp_inflight_installs") {
            Err(m) => {
                return (None, Some(m));
            },
            Ok(value) => {
                config.lsp_inflight_installs = value;
            },
        },
        None => {},
    }
    settle_storage(config, p, f)
}

fn settle_installs(config: &mut Config, p: &Json, f: &ConfigureFacts) -> (r: (
    Option<String>,
    Option<String>,
))
    ensures
        ({
            let want = settled_installs(old(config).deep_view(), *p, f@);
            final(config).deep_view() == want.settings && r.0.deep_view() == want.backup_dir
                && r.1.deep_view() == want.fault
        }),
{
    proof {
        reveal(settled_installs);
    }
    match p.get("lsp_auto_install_binaries") {
        Some(v) => match parse_string_set(v, "lsp_auto_install_binaries") {
            Err(m) => {
                return (None, Some(m));
            },
            Ok(value) => {
                config.lsp_auto_install_binaries = value;
            },
        },
        None => {},
    }
    settle_inflight(config, p, f)
}

/// The language servers, and what comes behind them.
#[verifier::opaque]
pub open spec fn settled_servers(s: Settings, p: Json, f: Facts) -> Settled {
    match p.field("lsp_servers"@) {
        None => settled_disabled(s, p, f),
        Some(v) => match servers_of(v) {
            Err(m) => halted(s, None, m),
            Ok(lsp_servers) => settled_disabled(Settings { lsp_servers, ..s }, p, f),
        },
    }
}

/// The permissions of shell commands, the language servers that are switched off, and what
/// comes behind them.
#[verifier::opaque]
pub open spec fn settled_disabled(s: Settings, p: Json, f: Facts) -> Settled {
    let s = Settings {
        bash_permissions: given(p.flag_field("bash_permissions"@), s.bash_permissions),
        ..s
    };
    match p.field("disabled_lsp"@) {
        None => settled_paths(s, p, f),
        Some(v) => match lowered_text_set(v, "disabled_lsp"@) {
            Err(m) => halted(s, None, m),
            Ok(disabled_lsp) => settled_paths(Settings { disabled_lsp, ..s }, p, f),
        },
    }
}

/// The directories in which language servers are looked for, and what comes behind them.
#[verifier::opaque]
pub open spec fn settled_paths(s: Settings, p: Json, f: Facts) -> Settled {
    match p.field("lsp_paths_extra"@) {
        None => settled_installs(s, p, f),
        Some(v) => match extra_paths(v, f.resolved) {
            Err(m) => halted(s, None, m),
            Ok(paths) => settled_installs(Settings { lsp_paths_extra: paths, ..s }, p, f),
        },
    }
}

fn settle_paths(config: &mut Config, p: &Json, f: &ConfigureFacts) -> (r: (
    Option<String>,
    Option<String>,
))
    ensures
        ({
            let want = settled_paths(old(config).deep_view(), *p, f@);
            final(config).deep_view() == want.settings && r.0.deep_view() == want.backup_dir
                && r.1.deep_view() == want.fault
        }),
{
    proof {
        reveal(settled_paths);
    }
    match p.get("lsp_paths_extra") {
        Some(v) => match parse_lsp_paths_extra(v, &f.resolved) {
            Err(m) => {
                return (None, Some(m));
            },
            Ok(value) => {
                config.lsp_paths_extra = value;
            },
        },
        None => {},
    }
    settle_installs(config, p, f)
}

fn settle_disabled(config: &mut Config, p: &Json, f: &ConfigureFacts) -> (r: (
    Option<String>,
    Option<String>,
))
    ensures
        ({
            let want = settled_disabled(old(config).deep_view(), *p, f@);
            final(config).deep_view() == want.settings && r.0.deep_view() == want.backup_dir
                && r.1.deep_view() == want.fault
        }),
{
    proof {
        reveal(settled_disabled);
    }
    let ghost before = config.deep_view();
    config.bash_permissions = flag_or(p, "bash_permissions", config.bash_permissions);
    assert(config.deep_view() =~= (Settings {
        bash_permissions: given(p.flag_field("bash_permissions"@), before.bash_permissions),
        ..before
    }));
    match p.get("disabled_lsp") {
        Some(v) => match parse_disabled_lsp(v) {
            Err(m) => {
                return (None, Some(m));
            },
            Ok(value) => {
                config.disabled_lsp = value;
            },
        },
        None => {},
    }
    settle_paths(config, p, f)
}

fn settle_servers(config: &mut Config, p: &Json, f: &ConfigureFacts) -> (r: (
    Option<String>,
    Option<String>,
))
    ensures
        ({
            let want = settled_servers(old(config).deep_view(), *p, f@);
            final(config).deep_view() == want.settings && r.0.deep_view() == want.backup_dir
                && r.1.deep_view() == want.fault
        }),
{
    proof {
        reveal(settled_servers);
    }
    match p.get("lsp_servers") {
        Some(v) => match parse_lsp_servers(v) {
            Err(m) => {
                return (None, Some(m));
            },
            Ok(value) => {
                config.lsp_servers = value;
            },
        },
        None => {},
    }
    settle_disabled(config, p, f)
}

/// What comes of applying a request's settings one after the other: the first fault ends it,
/// and what was applied before it stays.
pub open spec fn settled(s: Settings, p: Json, f: Facts) -> Settled {
    let s = with_editing(s, p);
    match timeout_of(p) {
        Err(m) => halted(s, None, m),
        Ok(t) => settled_servers(
            with_features(
                Settings { formatter_timeout_secs: given(t, s.formatter_timeout_secs), ..s },
                p,
            ),
            p,
            f,
        ),
    }
}

fn apply_editing(config: &mut Config, p: &Json)
    ensures
        final(config).deep_view() == with_editing(old(config).deep_view(), *p),
{
    config.format_on_edit = flag_or(p, "format_on_edit", config.format_on_edit);
    match p.get("validate_on_edit") {
        Some(Json::Bool(on)) => {
            config.validate_on_edit = Some(
                if *on {
                    "syntax".to_owned()
                } else {
                    "off".to_owned()
                },
            );
        },
        Some(Json::Text(s)) => {
            config.validate_on_edit = Some(
                if same(s.as_str(), "true") {
                    "syntax".to_owned()
                } else if same(s.as_str(), "false") {
                    "off".to_owned()
                } else {
                    owned(s.as_str())
                },
            );
        },
        _ => {},
    }
    apply_overrides(&mut config.formatter, p, "formatter");
    config.restrict_to_project_root = flag_or(
        p,
        "restrict_to_project_root",
        config.restrict_to_project_root,
    );
}

fn apply_features(config: &mut Config, p: &Json)
    ensures
        final(config).deep_view() == with_features(old(config).deep_view(), *p),
{
    apply_overrides(&mut config.checker, p, "checker");
    config.search_index = flag_or(p, "search_index", config.search_index);
    config.semantic_search = flag_or(p, "semantic_search", config.semantic_search);
    config.experimental_bash_rewrite = flag_or(
        p,
        "experimental_bash_rewrite",
        config.experimental_bash_rewrite,
    );
    config.experimental_bash_compress = flag_or(
        p,
        "experimental_bash_compress",
        config.experimental_bash_compress,
    );
    config.experimental_bash_background = flag_or(
        p,
        "experimental_bash_background",
        config.experimental_bash_background,
    );
    config.experimental_lsp_ty = flag_or(p, "experimental_lsp_ty", config.experimental_lsp_ty);
}

fn settle(config: &mut Config, p: &Json, f: &ConfigureFacts) -> (r: (
    Option<String>,
    Option<String>,
))
    ensures
        ({
            let want = settled(old(config).deep_view(), *p, f@);
            final(config).deep_view() == want.settings && r.0.deep_view() == want.backup_dir
                && r.1.deep_view() == want.fault
        }),
{
    apply_editing(config, p);
    match p.get_unsigned("formatter_timeout_secs") {
        Some(v) => {
            if v == 0 || v > 600 {
                return (
                    None,
                    Some(
                        text2(
                            "configure: formatter_timeout_secs must be in 1..=600, got ",
                            decimal_text(v).as_str(),
                        ),
                    ),
                );
            }
            config.formatter_timeout_secs = v as u32;
        },
        None => {},
    }
    apply_features(config, p);
    settle_servers(config, p, f)
}

/// The parameters of a request: its member `params`, or else the request itself.
pub open spec fn params_of(req: Json) -> Json {
    given(req.field("params"@), req)
}

/// What a request does.
pub ghost struct Effect {
    pub settings: Settings,
    /// Whether what is known of installed tools no longer holds.
    pub clear_tool_cache: bool,
    pub backup_dir: Option<Seq<char>>,
    pub answer: Result<Seq<char>, RefusalModel>,
}

/// Whether two roots are the same path.
pub open spec fn same_root(previous: Option<Seq<char>>, root: Seq<char>) -> bool {
    match previous {
        Some(p) => path_components(p) == path_components(root),
        None => false,
    }
}

/// What a request to configure does. A request without a project root, or with one that is
/// no directory, does nothing; otherwise the root is set, whatever becomes of the other
/// settings.
pub open spec fn configured(s: Settings, req: Json, f: Facts) -> Effect {
    let p = params_of(req);
    match p.text_field("project_root"@) {
        None => Effect {
            settings: s,
            clear_tool_cache: false,
            backup_dir: None,
            answer: Err(invalid("configure: missing required param 'project_root'"@)),
        },
        Some(root) => if !f.root_is_dir {
            Effect {
                settings: s,
                clear_tool_cache: false,
                backup_dir: None,
                answer: Err(invalid("configure: project_root is not a directory: "@ + root)),
            }
        } else {
            let done = settled(Settings { project_root: Some(root), ..s }, p, f);
            Effect {
                settings: done.settings,
                clear_tool_cache: !same_root(s.project_root, root),
                backup_dir: done.backup_dir,
                answer: match done.fault {
                    Some(m) => Err(invalid(m)),
                    None => Ok(root),
                },
            }
        },
    }
}

/// What a request to configure asks of its surroundings, and its answer.
pub struct Configured {
    /// Whether what is known of installed tools no longer holds.
    pub clear_tool_cache: bool,
    /// The directory that backups move to.
    pub backup_dir: Option<String>,
    /// The project root, or why the request was refused.
    pub result: Result<String, Refusal>,
}

/// Applies a request to the settings.
pub fn handle_configure(config: &mut Config, req: &Json, facts: &ConfigureFacts) -> (r: Configured)
    ensures
        ({
            let want = configured(old(config).deep_view(), *req, facts@);
            &&& final(config).deep_view() == want.settings
            &&& r.clear_tool_cache == want.clear_tool_cache
            &&& r.backup_dir.deep_view() == want.backup_dir
            &&& match (r.result, want.answer) {
                (Ok(root), Ok(t)) => root@ == t,
                (Err(e), Err(m)) => e.deep_view() == m,
                _ => false,
            }
        }),
{
    let p = match req.get("params") {
        Some(p) => p,
        None => req,
    };
    let root = match p.get_text("project_root") {
        Some(root) => root,
        None => {
            return Configured {
                clear_tool_cache: false,
                backup_dir: None,
                result: Err(reject("configure: missing required param 'project_root'")),
            };
        },
    };
    if !facts.root_is_dir {
        return Configured {
            clear_tool_cache: false,
            backup_dir: None,
            result: Err(
                reject(text2("configure: project_root is not a directory: ", root).as_str()),
            ),
        };
    }
    let clear_tool_cache = match &config.project_root {
        Some(before) => {
            proof {
                if path_under(before@, root@) && path_under(root@, before@) {
                    assert(path_components(before@) =~= path_components(root@));
                }
            }
            !(starts_with_path(before.as_str(), root) && starts_with_path(root, before.as_str()))
        },
        None => true,
    };
    config.project_root = Some(owned(root));
    let (backup_dir, fault) = settle(config, p, facts);
    Configured {
        clear_tool_cache,
        backup_dir,
        result: match fault {
            Some(m) => Err(reject(m.as_str())),
            None => Ok(owned(root)),
        },
    }
}

/// What a request to configure is answered with. The count stops one past the limit; the
/// warnings follow later.
pub struct ConfigureReport {
    pub project_root: String,
    pub source_file_count: usize,
    pub source_file_count_exceeds_max: bool,
    pub max_callgraph_files: usize,
    pub source_file_count_bounded: bool,
    pub warnings_pending: bool,
}

/// The answer for a project with a number of source files.
pub fn configure_report(project_root: &str, max_callgraph_files: usize, source_files: usize) -> (r:
    ConfigureReport)
    ensures
        r.project_root@ == project_root@,
        r.source_file_count == (if source_files > max_callgraph_files {
            max_callgraph_files + 1
        } else {
            source_files as int
        }),
        r.source_file_count_exceeds_max == (source_files > max_callgraph_files),
        r.max_callgraph_files == max_callgraph_files,
        r.source_file_count_bounded,
        r.warnings_pending,
{
    let exceeds = source_files > max_callgraph_files;
    ConfigureReport {
        project_root: owned(project_root),
        source_file_count: if exceeds {
            max_callgraph_files + 1
        } else {
            source_files
        },
        source_file_count_exceeds_max: exceeds,
        max_callgraph_files,
        source_file_count_bounded: true,
        warnings_pending: true,
    }
}

/// The languages of the files of which the language is known.
pub open spec fn known_languages(files: Seq<Seq<char>>) -> Seq<LangId>
    decreases files.len(),
{
    if files.len() == 0 {
        Seq::empty()
    } else {
        let before = known_languages(files.drop_last());
        match path_lang(files.last()) {
            Some(lang) => if before.contains(lang) {
                before
            } else {
                before.push(lang)
            },
            None => before,
        }
    }
}

/// The languages of a project's files, each once.
pub fn project_languages(files: &Vec<String>) -> (r: Vec<LangId>)
    ensures
        r@ == known_languages(texts(files@)),
{
    let ghost all = texts(files@);
    let mut out: Vec<LangId> = Vec::new();
    let mut i: usize = 0;
    while i < files.len()
        invariant
            i <= files.len(),
            all == texts(files@),
            out@ == known_languages(all.take(i as int)),
        decreases files.len() - i,
    {
        assert(all.take(i + 1).drop_last() =~= all.take(i as int));
        match detect_language(files[i].as_str()) {
            Some(lang) => {
                let mut k: usize = 0;
                while k < out.len() && out[k] != lang
                    invariant
                        k <= out.len(),
                        forall|j: int| 0 <= j < k ==> out@[j] != lang,
                    decreases out.len() - k,
                {
                    k = k + 1;
                }
                if k == out.len() {
                    out.push(lang);
                }
            },
            None => {},
        }
        i = i + 1;
    }
    assert(all.take(i as int) =~= all);
    out
}

/// What is told of a project once all its files are known.
pub struct ConfigureWarnings {
    pub source_file_count: usize,
    pub source_file_count_exceeds_max: bool,
    pub max_callgraph_files: usize,
    pub missing_tools: Vec<MissingTool>,
    pub missing_servers: Vec<MissingServer>,
}

/// What is told of a project with these source files, where `servers` are the language
/// servers of the files, file by file.
pub fn configure_warnings(
    files: &Vec<String>,
    servers: &Vec<FileServer>,
    config: &Config,
    project: &ProjectFiles,
    tools: &ToolFacts,
) -> (r: ConfigureWarnings)
    ensures
        r.source_file_count == files@.len(),
        r.source_file_count_exceeds_max == (files@.len() > config.max_callgraph_files),
        r.max_callgraph_files == config.max_callgraph_files,
        ({
            let settings = config.deep_view();
            let languages = known_languages(texts(files@));
            &&& models(r.missing_tools@) == sorted::<MissingTool>(
                missing_for(languages, settings, project@, tools@, languages.len() as int),
            )
            &&& models(r.missing_servers@) == sorted::<MissingServer>(
                scan_defined(
                    scan_files(models(servers@), settings, tools@, servers@.len() as int),
                    settings.lsp_servers,
                    settings,
                    tools@,
                    settings.lsp_servers.len() as int,
                ).missing,
            )
        }),
{
    let languages = project_languages(files);
    ConfigureWarnings {
        source_file_count: files.len(),
        source_file_count_exceeds_max: files.len() > config.max_callgraph_files,
        max_callgraph_files: config.max_callgraph_files,
        missing_tools: detect_missing_tools_for_languages(&languages, config, project, tools),
        missing_servers: detect_missing_lsp_binaries(servers, config, tools),
    }
}

/// Whether a stored search index can be used as it is: it was built at the commit that is
/// checked out.
pub fn stored_index_is_current(current_head: Option<&str>, stored_head: Option<&str>) -> (r: bool)
    ensures
        r == match (current_head, stored_head) {
            (Some(a), Some(b)) => a@ == b@,
            _ => false,
        },
{
    match (current_head, stored_head) {
        (Some(a), Some(b)) => same(a, b),
        _ => false,
    }
}

/// How many files the semantic search takes in.
pub const MAX_SEMANTIC_FILES: usize = 10000;

/// Why a project with a number of files gets no semantic search.
pub fn semantic_size_fault(files: usize) -> (r: Option<String>)
    ensures
        r.deep_view() == (if files > MAX_SEMANTIC_FILES {
            Some(
                "too many files ("@ + decimal(files as nat) + ") for semantic indexing (max "@
                    + decimal(MAX_SEMANTIC_FILES as nat) + ")"@,
            )
        } else {
            None
        }),
{
    if files > MAX_SEMANTIC_FILES {
        Some(
            text5(
                "too many files (",
                decimal_text(files as u64).as_str(),
                ") for semantic indexing (max ",
                decimal_text(MAX_SEMANTIC_FILES as u64).as_str(),
                ")",
            ),
        )
    } else {
        None
    }
}

/// A refused request changes nothing where the project root is not given or is no directory.
pub proof fn refused_root_changes_nothing(s: Settings, req: Json, f: Facts)
    requires
        params_of(req).text_field("project_root"@) is None || !f.root_is_dir,
    ensures
        configured(s, req, f).settings == s,
        configured(s, req, f).answer is Err,
{
}

/// Where the root is a directory it is set, whether or not the request is refused for
/// another setting.
pub proof fn root_is_set(s: Settings, req: Json, f: Facts)
    requires
        params_of(req).text_field("project_root"@) is Some,
        f.root_is_dir,
    ensures
        configured(s, req, f).settings.project_root == params_of(req).text_field(
            "project_root"@,
        ),
{
    let root = params_of(req).text_field("project_root"@);
    let p = params_of(req);
    let one = with_editing(Settings { project_root: root, ..s }, p);
    match timeout_of(p) {
        Ok(t) => {
            lemma_root_stays(
                with_features(
                    Settings {
                        formatter_timeout_secs: given(t, one.formatter_timeout_secs),
                        ..one
                    },
                    p,
                ),
                p,
                f,
            );
        },
        Err(_) => {},
    }
}

proof fn lemma_root_stays_limits(s: Settings, p: Json, dir: Option<Seq<char>>)
    ensures
        settled_limits(s, p, dir).settings.project_root == s.project_root,
{
    reveal(settled_limits);
}

proof fn lemma_root_stays_semantic(s: Settings, p: Json, f: Facts, dir: Option<Seq<char>>)
    ensures
        settled_semantic(s, p, f, dir).settings.project_root == s.project_root,
{
    reveal(settled_semantic);
    lemma_root_stays_limits(s, p, dir);
    match p.field("semantic"@) {
        Some(v) => match semantic_of(v, s.semantic, f.backends, f.url_fault) {
            Ok(semantic) => {
                lemma_root_stays_limits(Settings { semantic, ..s }, p, dir);
            },
            Err(_) => {},
        },
        None => {},
    }
}

proof fn lemma_root_stays_storage(s: Settings, p: Json, f: Facts)
    ensures
        settled_storage(s, p, f).settings.project_root == s.project_root,
{
    reveal(settled_storage);
    let t = Settings {
        search_index_max_file_size: given(
            p.unsigned_field("search_index_max_file_size"@),
            s.search_index_max_file_size,
        ),
        ..s
    };
    lemma_root_stays_semantic(t, p, f, None);
    match p.text_field("storage_dir"@) {
        Some(raw) => match storage_dir_of(raw) {
            Ok(dir) => {
                lemma_root_stays_semantic(
                    Settings { storage_dir: Some(dir), ..t },
                    p,
                    f,
                    Some(dir),
                );
            },
            Err(_) => {},
        },
        None => {},
    }
}

proof fn lemma_root_stays_inflight(s: Settings, p: Json, f: Facts)
    ensures
        settled_inflight(s, p, f).settings.project_root == s.project_root,
{
    reveal(settled_inflight);
    lemma_root_stays_storage(s, p, f);
    match p.field("lsp_inflight_installs"@) {
        Some(v) => match text_set(v, "lsp_inflight_installs"@) {
            Ok(set) => {
                lemma_root_stays_storage(Settings { lsp_inflight_installs: set, ..s }, p, f);
            },
            Err(_) => {},
        },
        None => {},
    }
}

proof fn lemma_root_stays_installs(s: Settings, p: Json, f: Facts)
    ensures
        settled_installs(s, p, f).settings.project_root == s.project_root,
{
    reveal(settled_installs);
    lemma_root_stays_inflight(s, p, f);
    match p.field("lsp_auto_install_binaries"@) {
        Some(v) => match text_set(v, "lsp_auto_install_binaries"@) {
            Ok(set) => {
                lemma_root_stays_inflight(
                    Settings { lsp_auto_install_binaries: set, ..s },
                    p,
                    f,
                );
            },
            Err(_) => {},
        },
        None => {},
    }
}

proof fn lemma_root_stays_paths(s: Settings, p: Json, f: Facts)
    ensures
        settled_paths(s, p, f).settings.project_root == s.project_root,
{
    reveal(settled_paths);
    lemma_root_stays_installs(s, p, f);
    match p.field("lsp_paths_extra"@) {
        Some(v) => match extra_paths(v, f.resolved) {
            Ok(paths) => {
                lemma_root_stays_installs(Settings { lsp_paths_extra: paths, ..s }, p, f);
            },
            Err(_) => {},
        },
        None => {},
    }
}

proof fn lemma_root_stays_disabled(s: Settings, p: Json, f: Facts)
    ensures
        settled_disabled(s, p, f).settings.project_root == s.project_root,
{
    reveal(settled_disabled);
    let s = Settings {
        bash_permissions: given(p.flag_field("bash_permissions"@), s.bash_permissions),
        ..s
    };
    lemma_root_stays_paths(s, p, f);
    match p.field("disabled_lsp"@) {
        Some(v) => match lowered_text_set(v, "disabled_lsp"@) {
            Ok(set) => {
                lemma_root_stays_paths(Settings { disabled_lsp: set, ..s }, p, f);
            },
            Err(_) => {},
        },
        None => {},
    }
}

proof fn lemma_root_stays(s: Settings, p: Json, f: Facts)
    ensures
        settled_servers(s, p, f).settings.project_root == s.project_root,
{
    reveal(settled_servers);
    lemma_root_stays_disabled(s, p, f);
    match p.field("lsp_servers"@) {
        Some(v) => match servers_of(v) {
            Ok(lsp_servers) => {
                lemma_root_stays_disabled(Settings { lsp_servers, ..s }, p, f);
            },
            Err(_) => {},
        },
        None => {},
    }
}

/// What a request does not name stays as it is: one that names only the root changes only
/// the root.
pub proof fn unnamed_settings_stay(s: Settings, req: Json, f: Facts)
    requires
        f.root_is_dir,
        params_of(req).text_field("project_root"@) is Some,
        forall|key: Seq<char>|
            key != "project_root"@ ==> #[trigger] params_of(req).field(key) is None,
    ensures
        configured(s, req, f).settings == (Settings {
            project_root: params_of(req).text_field("project_root"@),
            ..s
        }),
        configured(s, req, f).answer is Ok,
{
    lemma_setting_names();
    reveal(settled_limits);
    reveal(settled_semantic);
    reveal(settled_storage);
    reveal(settled_inflight);
    reveal(settled_installs);
    reveal(settled_paths);
    reveal(settled_disabled);
    reveal(settled_servers);
}

proof fn lemma_setting_names()
    ensures
        "format_on_edit"@ != "project_root"@,
        "validate_on_edit"@ != "project_root"@,
        "formatter"@ != "project_root"@,
        "restrict_to_project_root"@ != "project_root"@,
        "formatter_timeout_secs"@ != "project_root"@,
        "checker"@ != "project_root"@,
        "search_index"@ != "project_root"@,
        "semantic_search"@ != "project_root"@,
        "experimental_bash_rewrite"@ != "project_root"@,
        "experimental_bash_compress"@ != "project_root"@,
        "experimental_bash_background"@ != "project_root"@,
        "experimental_lsp_ty"@ != "project_root"@,
        "lsp_servers"@ != "project_root"@,
        "bash_permissions"@ != "project_root"@,
        "disabled_lsp"@ != "project_root"@,
        "lsp_paths_extra"@ != "project_root"@,
        "lsp_auto_install_binaries"@ != "project_root"@,
        "lsp_inflight_installs"@ != "project_root"@,
        "search_index_max_file_size"@ != "project_root"@,
        "storage_dir"@ != "project_root"@,
        "semantic"@ != "project_root"@,
        "max_callgraph_files"@ != "project_root"@,
        "max_background_bash_tasks"@ != "project_root"@,
{
    reveal_strlit("project_root");
    reveal_strlit("format_on_edit");
    reveal_strlit("validate_on_edit");
    reveal_strlit("formatter");
    reveal_strlit("restrict_to_project_root");
    reveal_strlit("formatter_timeout_secs");
    reveal_strlit("checker");
    reveal_strlit("search_index");
    reveal_strlit("semantic_search");
    reveal_strlit("experimental_bash_rewrite");
    reveal_strlit("experimental_bash_compress");
    reveal_strlit("experimental_bash_background");
    reveal_strlit("experimental_lsp_ty");
    reveal_strlit("lsp_servers");
    reveal_strlit("bash_permissions");
    reveal_strlit("disabled_lsp");
    reveal_strlit("lsp_paths_extra");
    reveal_strlit("lsp_auto_install_binaries");
    reveal_strlit("lsp_inflight_installs");
    reveal_strlit("search_index_max_file_size");
    reveal_strlit("storage_dir");
    reveal_strlit("semantic");
    reveal_strlit("max_callgraph_files");
    reveal_strlit("max_background_bash_tasks");
    assert("storage_dir"@[0] != "project_root"@[0]);
}

spec fn counted(p: Json, key: Seq<char>, now: usize) -> usize {
    match p.field(key) {
        Some(v) => v.unsigned()->0 as usize,
        None => now,
    }
}

spec fn after_limits(s: Settings, p: Json) -> Settings {
    Settings {
        max_callgraph_files: counted(p, "max_callgraph_files"@, s.max_callgraph_files),
        max_background_bash_tasks: counted(
            p,
            "max_background_bash_tasks"@,
            s.max_background_bash_tasks,
        ),
        ..s
    }
}

spec fn after_semantic(s: Settings, p: Json, f: Facts) -> Settings {
    after_limits(
        Settings {
            semantic: match p.field("semantic"@) {
                Some(v) => semantic_of(v, s.semantic, f.backends, f.url_fault)->Ok_0,
                None => s.semantic,
            },
            ..s
        },
        p,
    )
}

spec fn after_storage(s: Settings, p: Json, f: Facts) -> Settings {
    after_semantic(
        Settings {
            search_index_max_file_size: match p.unsigned_field("search_index_max_file_size"@) {
                Some(n) => n,
                None => s.search_index_max_file_size,
            },
            storage_dir: match p.text_field("storage_dir"@) {
                Some(raw) => Some(storage_dir_of(raw)->Ok_0),
                None => s.storage_dir,
            },
            ..s
        },
        p,
        f,
    )
}

spec fn after_inflight(s: Settings, p: Json, f: Facts) -> Settings {
    after_storage(
        Settings {
            lsp_inflight_installs: match p.field("lsp_inflight_installs"@) {
                Some(v) => text_set(v, "lsp_inflight_installs"@)->Ok_0,
                None => s.lsp_inflight_installs,
            },
            ..s
        },
        p,
        f,
    )
}

spec fn after_installs(s: Settings, p: Json, f: Facts) -> Settings {
    after_inflight(
        Settings {
            lsp_auto_install_binaries: match p.field("lsp_auto_install_binaries"@) {
                Some(v) => text_set(v, "lsp_auto_install_binaries"@)->Ok_0,
                None => s.lsp_auto_install_binaries,
            },
            ..s
        },
        p,
        f,
    )
}

spec fn after_paths(s: Settings, p: Json, f: Facts) -> Settings {
    after_installs(
        Settings {
            lsp_paths_extra: match p.field("lsp_paths_extra"@) {
                Some(v) => extra_paths(v, f.resolved)->Ok_0,
                None => s.lsp_paths_extra,
            },
            ..s
        },
        p,
        f,
    )
}

spec fn after_disabled(s: Settings, p: Json, f: Facts) -> Settings {
    after_paths(
        Settings {
            bash_permissions: match p.flag_field("bash_permissions"@) {
                Some(b) => b,
                None => s.bash_permissions,
            },
            disabled_lsp: match p.field("disabled_lsp"@) {
                Some(v) => lowered_text_set(v, "disabled_lsp"@)->Ok_0,
                None => s.disabled_lsp,
            },
            ..s
        },
        p,
        f,
    )
}

spec fn after_servers(s: Settings, p: Json, f: Facts) -> Settings {
    after_disabled(
        Settings {
            lsp_servers: match p.field("lsp_servers"@) {
                Some(v) => servers_of(v)->Ok_0,
                None => s.lsp_servers,
            },
            ..s
        },
        p,
        f,
    )
}

/// Whether a member, where it is given, is a positive number.
pub open spec fn counts(p: Json, key: Seq<char>) -> bool {
    p.field(key) is Some ==> p.unsigned_field(key) is Some && p.unsigned_field(key)->0 >= 1
}

spec fn limits_given(p: Json) -> bool {
    counts(p, "max_callgraph_files"@) && counts(p, "max_background_bash_tasks"@)
}

proof fn lemma_after_limits(s: Settings, p: Json, dir: Option<Seq<char>>)
    ensures
        settled_limits(s, p, dir).fault is None ==> settled_limits(s, p, dir).settings
            == after_limits(s, p) && settled_limits(s, p, dir).backup_dir == dir && limits_given(p),
{
    reveal(settled_limits);
}

spec fn semantic_given(s: Settings, p: Json, f: Facts) -> bool {
    limits_given(p) && (p.field("semantic"@) is Some ==> semantic_of(
        p.field("semantic"@)->0,
        s.semantic,
        f.backends,
        f.url_fault,
    ) is Ok)
}

proof fn lemma_after_semantic(s: Settings, p: Json, f: Facts, dir: Option<Seq<char>>)
    ensures
        settled_semantic(s, p, f, dir).fault is None ==> settled_semantic(s, p, f, dir).settings
            == after_semantic(s, p, f) && settled_semantic(s, p, f, dir).backup_dir == dir
            && semantic_given(s, p, f),
{
    reveal(settled_semantic);
    match p.field("semantic"@) {
        Some(v) => match semantic_of(v, s.semantic, f.backends, f.url_fault) {
            Ok(semantic) => {
                lemma_after_limits(Settings { semantic, ..s }, p, dir);
            },
            Err(_) => {},
        },
        None => {
            lemma_after_limits(s, p, dir);
        },
    }
}

spec fn storage_given(s: Settings, p: Json, f: Facts) -> bool {
    semantic_given(s, p, f) && (p.text_field("storage_dir"@) is Some ==> storage_dir_of(
        p.text_field("storage_dir"@)->0,
    ) is Ok)
}

proof fn lemma_after_storage(s: Settings, p: Json, f: Facts)
    ensures
        settled_storage(s, p, f).fault is None ==> settled_storage(s, p, f).settings
            == after_storage(s, p, f) && storage_given(s, p, f) && settled_storage(
            s,
            p,
            f,
        ).backup_dir == (if p.text_field("storage_dir"@) is Some {
            Some(storage_dir_of(p.text_field("storage_dir"@)->0)->Ok_0)
        } else {
            None
        }),
{
    reveal(settled_storage);
    let t = Settings {
        search_index_max_file_size: given(
            p.unsigned_field("search_index_max_file_size"@),
            s.search_index_max_file_size,
        ),
        ..s
    };
    match p.text_field("storage_dir"@) {
        Some(raw) => match storage_dir_of(raw) {
            Ok(dir) => {
                lemma_after_semantic(Settings { storage_dir: Some(dir), ..t }, p, f, Some(dir));
            },
            Err(_) => {},
        },
        None => {
            lemma_after_semantic(t, p, f, None);
        },
    }
}

spec fn inflight_given(s: Settings, p: Json, f: Facts) -> bool {
    storage_given(s, p, f) && (p.field("lsp_inflight_installs"@) is Some ==> text_set(
        p.field("lsp_inflight_installs"@)->0,
        "lsp_inflight_installs"@,
    ) is Ok)
}

proof fn lemma_after_inflight(s: Settings, p: Json, f: Facts)
    ensures
        settled_inflight(s, p, f).fault is None ==> settled_inflight(s, p, f).settings
            == after_inflight(s, p, f) && inflight_given(s, p, f),
{
    reveal(settled_inflight);
    match p.field("lsp_inflight_installs"@) {
        Some(v) => match text_set(v, "lsp_inflight_installs"@) {
            Ok(set) => {
                lemma_after_storage(Settings { lsp_inflight_installs: set, ..s }, p, f);
            },
            Err(_) => {},
        },
        None => {
            lemma_after_storage(s, p, f);
        },
    }
}

spec fn installs_given(s: Settings, p: Json, f: Facts) -> bool {
    inflight_given(s, p, f) && (p.field("lsp_auto_install_binaries"@) is Some ==> text_set(
        p.field("lsp_auto_install_binaries"@)->0,
        "lsp_auto_install_binaries"@,
    ) is Ok)
}

proof fn lemma_after_installs(s: Settings, p: Json, f: Facts)
    ensures
        settled_installs(s, p, f).fault is None ==> settled_installs(s, p, f).settings
            == after_installs(s, p, f) && installs_given(s, p, f),
{
    reveal(settled_installs);
    match p.field("lsp_auto_install_binaries"@) {
        Some(v) => match text_set(v, "lsp_auto_install_binaries"@) {
            Ok(set) => {
                lemma_after_inflight(Settings { lsp_auto_install_binaries: set, ..s }, p, f);
            },
            Err(_) => {},
        },
        None => {
            lemma_after_inflight(s, p, f);
        },
    }
}

spec fn paths_given(s: Settings, p: Json, f: Facts) -> bool {
    installs_given(s, p, f) && (p.field("lsp_paths_extra"@) is Some ==> extra_paths(
        p.field("lsp_paths_extra"@)->0,
        f.resolved,
    ) is Ok)
}

proof fn lemma_after_paths(s: Settings, p: Json, f: Facts)
    ensures
        settled_paths(s, p, f).fault is None ==> settled_paths(s, p, f).settings == after_paths(
            s,
            p,
            f,
        ) && paths_given(s, p, f),
{
    reveal(settled_paths);
    match p.field("lsp_paths_extra"@) {
        Some(v) => match extra_paths(v, f.resolved) {
            Ok(paths) => {
                lemma_after_installs(Settings { lsp_paths_extra: paths, ..s }, p, f);
            },
            Err(_) => {},
        },
        None => {
            lemma_after_installs(s, p, f);
        },
    }
}

spec fn disabled_given(s: Settings, p: Json, f: Facts) -> bool {
    paths_given(s, p, f) && (p.field("disabled_lsp"@) is Some ==> lowered_text_set(
        p.field("disabled_lsp"@)->0,
        "disabled_lsp"@,
    ) is Ok)
}

proof fn lemma_after_disabled(s: Settings, p: Json, f: Facts)
    ensures
        settled_disabled(s, p, f).fault is None ==> settled_disabled(s, p, f).settings
            == after_disabled(s, p, f) && disabled_given(s, p, f),
{
    reveal(settled_disabled);
    let t = Settings {
        bash_permissions: given(p.flag_field("bash_permissions"@), s.bash_permissions),
        ..s
    };
    match p.field("disabled_lsp"@) {
        Some(v) => match lowered_text_set(v, "disabled_lsp"@) {
            Ok(disabled_lsp) => {
                lemma_after_paths(Settings { disabled_lsp, ..t }, p, f);
            },
            Err(_) => {},
        },
        None => {
            lemma_after_paths(t, p, f);
        },
    }
}

spec fn servers_given(s: Settings, p: Json, f: Facts) -> bool {
    disabled_given(s, p, f) && (p.field("lsp_servers"@) is Some ==> servers_of(
        p.field("lsp_servers"@)->0,
    ) is Ok)
}

proof fn lemma_after_servers(s: Settings, p: Json, f: Facts)
    ensures
        settled_servers(s, p, f).fault is None ==> settled_servers(s, p, f).settings
            == after_servers(s, p, f) && servers_given(s, p, f),
{
    reveal(settled_servers);
    match p.field("lsp_servers"@) {
        Some(v) => match servers_of(v) {
            Ok(lsp_servers) => {
                lemma_after_disabled(Settings { lsp_servers, ..s }, p, f);
            },
            Err(_) => {},
        },
        None => {
            lemma_after_disabled(s, p, f);
        },
    }
}

/// Whether a flag is as the request gives it, and as it was where the request does not.
pub open spec fn flag_taken(p: Json, key: Seq<char>, was: bool, now: bool) -> bool {
    match p.flag_field(key) {
        Some(b) => now == b,
        None => now == was,
    }
}

/// A request that is accepted switches every flag that it names, each to what the request gives,
/// and leaves those that it does not name.
pub proof fn flags_are_set_by_their_names(s: Settings, req: Json, f: Facts)
    requires
        configured(s, req, f).answer is Ok,
    ensures
        ({
            let p = params_of(req);
            let t = configured(s, req, f).settings;
            &&& flag_taken(p, "format_on_edit"@, s.format_on_edit, t.format_on_edit)
            &&& flag_taken(
                p,
                "restrict_to_project_root"@,
                s.restrict_to_project_root,
                t.restrict_to_project_root,
            )
            &&& flag_taken(p, "search_index"@, s.search_index, t.search_index)
            &&& flag_taken(p, "semantic_search"@, s.semantic_search, t.semantic_search)
            &&& flag_taken(
                p,
                "experimental_bash_rewrite"@,
                s.experimental_bash_rewrite,
                t.experimental_bash_rewrite,
            )
            &&& flag_taken(
                p,
                "experimental_bash_compress"@,
                s.experimental_bash_compress,
                t.experimental_bash_compress,
            )
            &&& flag_taken(
                p,
                "experimental_bash_background"@,
                s.experimental_bash_background,
                t.experimental_bash_background,
            )
            &&& flag_taken(p, "experimental_lsp_ty"@, s.experimental_lsp_ty, t.experimental_lsp_ty)
            &&& flag_taken(p, "bash_permissions"@, s.bash_permissions, t.bash_permissions)
        }),
{
    lemma_configured(s, req, f);
}

spec fn begun(s: Settings, req: Json) -> Settings {
    let p = params_of(req);
    let one = with_editing(
        Settings { project_root: p.text_field("project_root"@), ..s },
        p,
    );
    with_features(
        Settings {
            formatter_timeout_secs: match timeout_of(p) {
                Ok(Some(n)) => n,
                _ => one.formatter_timeout_secs,
            },
            ..one
        },
        p,
    )
}

proof fn lemma_configured(s: Settings, req: Json, f: Facts)
    requires
        configured(s, req, f).answer is Ok,
    ensures
        configured(s, req, f).settings == after_servers(begun(s, req), params_of(req), f),
        servers_given(begun(s, req), params_of(req), f),
        timeout_of(params_of(req)) is Ok,
{
    lemma_after_servers(begun(s, req), params_of(req), f);
}

/// A request that is accepted sets every number that it names: the formatter's time between one
/// and six hundred seconds, and limits of one at least.
pub proof fn numbers_are_set_by_their_names(s: Settings, req: Json, f: Facts)
    requires
        configured(s, req, f).answer is Ok,
    ensures
        ({
            let p = params_of(req);
            let t = configured(s, req, f).settings;
            &&& match p.unsigned_field("formatter_timeout_secs"@) {
                Some(n) => 1 <= n <= 600 && t.formatter_timeout_secs == n,
                None => t.formatter_timeout_secs == s.formatter_timeout_secs,
            }
            &&& match p.unsigned_field("search_index_max_file_size"@) {
                Some(n) => t.search_index_max_file_size == n,
                None => t.search_index_max_file_size == s.search_index_max_file_size,
            }
            &&& counts(p, "max_callgraph_files"@)
            &&& counts(p, "max_background_bash_tasks"@)
            &&& match p.unsigned_field("max_callgraph_files"@) {
                Some(n) => n <= usize::MAX ==> t.max_callgraph_files == n,
                None => t.max_callgraph_files == s.max_callgraph_files,
            }
            &&& match p.unsigned_field("max_background_bash_tasks"@) {
                Some(n) => n <= usize::MAX ==> t.max_background_bash_tasks == n,
                None => t.max_background_bash_tasks == s.max_background_bash_tasks,
            }
        }),
{
    lemma_configured(s, req, f);
}

/// A request that is accepted sets the servers, the paths, the lists and the search that it names,
/// each to what its member says, and leaves those that it does not name.
pub proof fn lists_are_set_by_their_names(s: Settings, req: Json, f: Facts)
    requires
        configured(s, req, f).answer is Ok,
    ensures
        ({
            let p = params_of(req);
            let t = configured(s, req, f).settings;
            &&& match p.field("lsp_servers"@) {
                Some(v) => servers_of(v) == Ok::<Seq<ServerDef>, Seq<char>>(t.lsp_servers),
                None => t.lsp_servers == s.lsp_servers,
            }
            &&& match p.field("disabled_lsp"@) {
                Some(v) => lowered_text_set(v, "disabled_lsp"@) == Ok::<Seq<Seq<char>>, Seq<char>>(
                    t.disabled_lsp,
                ),
                None => t.disabled_lsp == s.disabled_lsp,
            }
            &&& match p.field("lsp_paths_extra"@) {
                Some(v) => extra_paths(v, f.resolved) == Ok::<Seq<Seq<char>>, Seq<char>>(
                    t.lsp_paths_extra,
                ),
                None => t.lsp_paths_extra == s.lsp_paths_extra,
            }
            &&& match p.field("lsp_auto_install_binaries"@) {
                Some(v) => text_set(v, "lsp_auto_install_binaries"@) == Ok::<
                    Seq<Seq<char>>,
                    Seq<char>,
                >(t.lsp_auto_install_binaries),
                None => t.lsp_auto_install_binaries == s.lsp_auto_install_binaries,
            }
            &&& match p.field("lsp_inflight_installs"@) {
                Some(v) => text_set(v, "lsp_inflight_installs"@) == Ok::<
                    Seq<Seq<char>>,
                    Seq<char>,
                >(t.lsp_inflight_installs),
                None => t.lsp_inflight_installs == s.lsp_inflight_installs,
            }
            &&& match p.text_field("storage_dir"@) {
                Some(raw) => t.storage_dir is Some && storage_dir_of(raw) == Ok::<
                    Seq<char>,
                    Seq<char>,
                >(t.storage_dir->0),
                None => t.storage_dir == s.storage_dir,
            }
            &&& match p.field("semantic"@) {
                Some(v) => semantic_of(v, s.semantic, f.backends, f.url_fault) == Ok::<
                    Semantic,
                    Seq<char>,
                >(t.semantic),
                None => t.semantic == s.semantic,
            }
        }),
{
    lemma_configured(s, req, f);
}

/// What is checked after an edit is told by a flag or by a text: `true` stands for syntax and
/// `false` for nothing, and any other text for itself.
pub proof fn checks_after_edits_are_told_by_name(s: Settings, req: Json, f: Facts)
    requires
        configured(s, req, f).answer is Ok,
    ensures
        ({
            let p = params_of(req);
            let now = configured(s, req, f).settings.validate_on_edit;
            let text = p.text_field("validate_on_edit"@);
            &&& p.flag_field("validate_on_edit"@) == Some(true) ==> now == Some("syntax"@)
            &&& p.flag_field("validate_on_edit"@) == Some(false) ==> now == Some("off"@)
            &&& text == Some("true"@) ==> now == Some("syntax"@)
            &&& text == Some("false"@) ==> now == Some("off"@)
            &&& text is Some && text->0 != "true"@ && text->0 != "false"@ ==> now == text
            &&& p.field("validate_on_edit"@) is None ==> now == s.validate_on_edit
        }),
{
    lemma_configured(s, req, f);
    reveal_strlit("true");
    reveal_strlit("false");
    assert("true"@.len() == 4);
    assert("false"@.len() == 5);
}

/// The tools that a request gives for languages are put in by language: the last text that a
/// language is given counts, and languages that are given none keep what they have.
pub proof fn tools_are_put_in_by_language(
    t: Seq<(Seq<char>, Seq<char>)>,
    members: Seq<Member>,
    n: int,
    language: Seq<char>,
    k: int,
)
    requires
        0 <= n <= members.len(),
        0 <= k <= n,
        k < n ==> members[k].key@ == language && members[k].value.text() is Some,
        forall|i: int|
            0 <= i < n && (k == n || k < i) ==> (#[trigger] members[i]).key@ != language
                || members[i].value.text() is None,
    ensures
        k < n ==> table_get(overridden(t, members, n), language) == members[k].value.text(),
        k == n ==> table_get(overridden(t, members, n), language) == table_get(t, language),
    decreases n,
{
    if n > 0 {
        let before = overridden(t, members, n - 1);
        let m = members[n - 1];
        if k == n - 1 {
            lemma_table_get_set(before, language, m.value.text()->0);
        } else {
            assert(m.key@ != language || m.value.text() is None);
            tools_are_put_in_by_language(
                t,
                members,
                n - 1,
                language,
                if k == n {
                    n - 1
                } else {
                    k
                },
            );
            match m.value.text() {
                Some(text) => {
                    lemma_table_get_set_other(before, m.key@, text, language);
                },
                None => {},
            }
        }
    }
}

/// The caches of tools are dropped where the root is another one, and only there.
pub proof fn tool_caches_are_dropped_with_the_root(s: Settings, req: Json, f: Facts)
    requires
        configured(s, req, f).answer is Ok,
    ensures
        ({
            let root = params_of(req).text_field("project_root"@);
            &&& root is Some && configured(s, req, f).answer->Ok_0 == root->0
            &&& configured(s, req, f).clear_tool_cache <==> s.project_root is None
                || path_components(s.project_root->0) != path_components(root->0)
        }),
{
}

/// The languages of a project are those of its files, each once.
pub proof fn languages_are_those_of_the_files(files: Seq<Seq<char>>, lang: LangId)
    ensures
        known_languages(files).contains(lang) <==> exists|i: int|
            0 <= i < files.len() && path_lang(#[trigger] files[i]) == Some(lang),
        known_languages(files).no_duplicates(),
    decreases files.len(),
{
    if files.len() > 0 {
        let less = files.drop_last();
        let before = known_languages(less);
        let now = known_languages(files);
        languages_are_those_of_the_files(less, lang);
        assert(forall|i: int| 0 <= i < less.len() ==> less[i] == #[trigger] files[i]);
        assert(files[files.len() - 1] == files.last());
        match path_lang(files.last()) {
            Some(l) => {
                if !before.contains(l) {
                    assert(now =~= before.push(l));
                    assert(now.contains(lang) <==> before.contains(lang) || l == lang) by {
                        if before.contains(lang) {
                            let i = choose|i: int| 0 <= i < before.len() && before[i] == lang;
                            assert(now[i] == lang);
                        }
                        assert(now[before.len() as int] == l);
                        if now.contains(lang) && l != lang {
                            let i = choose|i: int| 0 <= i < now.len() && now[i] == lang;
                            assert(before[i] == lang);
                        }
                    }
                }
            },
            None => {},
        }
        if before.contains(lang) {
            let i = choose|i: int|
                0 <= i < less.len() && path_lang(#[trigger] less[i]) == Some(lang);
            assert(path_lang(files[i]) == Some(lang));
        }
        if exists|i: int| 0 <= i < files.len() && path_lang(#[trigger] files[i]) == Some(lang) {
            let i = choose|i: int|
                0 <= i < files.len() && path_lang(#[trigger] files[i]) == Some(lang);
            if i < less.len() {
                assert(path_lang(less[i]) == Some(lang));
            }
        }
    }
}

} // verus!
