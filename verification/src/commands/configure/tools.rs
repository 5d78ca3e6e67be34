//! Formatters, checkers and language servers that a project asks for and that are not
//! installed.
use vstd::prelude::*;

use crate::config::{Config, ServerDef, Settings};
use crate::json::{json_text, Json, JsonModel, Member};
use crate::lang::LangId;
use crate::models::{get_entry, group_models, models, table_get, Entry};
use crate::order::{sort_list, sorted, Ranked};
use crate::text::{
    chars_of, contains, contains_text, less, occurs, owned, parse_u32, same, split_chars, split_on,
    starts_with, string_of, text3, text_lt, texts, trim_chars, trimmed, unsigned_value,
};

verus! {

/// The name under which tools of a language are configured.
pub open spec fn key_of_lang(lang: LangId) -> Seq<char> {
    match lang {
        LangId::TypeScript | LangId::JavaScript | LangId::Tsx => "typescript"@,
        LangId::Python => "python"@,
        LangId::Rust => "rust"@,
        LangId::Go => "go"@,
        LangId::C => "c"@,
        LangId::Cpp => "cpp"@,
        LangId::Zig => "zig"@,
        LangId::CSharp => "csharp"@,
        LangId::Bash => "bash"@,
        LangId::Html => "html"@,
        LangId::Markdown => "markdown"@,
    }
}

/// The name under which tools of a language are configured.
pub fn lang_key(lang: LangId) -> (r: &'static str)
    ensures
        r@ == key_of_lang(lang),
{
    match lang {
        LangId::TypeScript | LangId::JavaScript | LangId::Tsx => "typescript",
        LangId::Python => "python",
        LangId::Rust => "rust",
        LangId::Go => "go",
        LangId::C => "c",
        LangId::Cpp => "cpp",
        LangId::Zig => "zig",
        LangId::CSharp => "csharp",
        LangId::Bash => "bash",
        LangId::Html => "html",
        LangId::Markdown => "markdown",
    }
}

/// What a project's root holds: the names of its files, and the text of `pyproject.toml`
/// where it can be read. Without a root there is nothing.
pub struct ProjectFiles {
    pub names: Vec<String>,
    pub pyproject: Option<String>,
}

/// The model of a `ProjectFiles`.
pub ghost struct Project {
    pub names: Seq<Seq<char>>,
    pub pyproject: Option<Seq<char>>,
}

impl View for ProjectFiles {
    type V = Project;

    open spec fn view(&self) -> Project {
        Project { names: texts(self.names@), pyproject: self.pyproject.deep_view() }
    }
}

impl Project {
    /// Whether the root holds a file.
    pub open spec fn has(self, name: Seq<char>) -> bool {
        self.names.contains(name)
    }

    /// Whether `pyproject.toml` has the section of a tool.
    pub open spec fn has_tool(self, tool: Seq<char>) -> bool {
        match self.pyproject {
            Some(text) => occurs(text, "[tool."@ + tool + "]"@),
            None => false,
        }
    }
}

impl ProjectFiles {
    fn has(&self, name: &str) -> (r: bool)
        ensures
            r == self@.has(name@),
    {
        contains_text(&self.names, name)
    }

    fn has_pyproject_tool(&self, tool: &str) -> (r: bool)
        ensures
            r == self@.has_tool(tool@),
    {
        match &self.pyproject {
            Some(text) => contains(text.as_str(), text3("[tool.", tool, "]").as_str()),
            None => false,
        }
    }
}

/// A tool that a project may need, and what asks for it.
pub struct ConfigureToolCandidate {
    pub tool: String,
    pub source: String,
    pub required: bool,
}

/// The model of a `ConfigureToolCandidate`.
pub ghost struct Candidate {
    pub tool: Seq<char>,
    pub source: Seq<char>,
    pub required: bool,
}

impl DeepView for ConfigureToolCandidate {
    type V = Candidate;

    open spec fn deep_view(&self) -> Candidate {
        Candidate { tool: self.tool@, source: self.source@, required: self.required }
    }
}

/// One candidate.
pub open spec fn only(tool: Seq<char>, source: Seq<char>) -> Seq<Candidate> {
    seq![Candidate { tool, source, required: true }]
}

/// A candidate that may be missing, and one that may not.
pub open spec fn either(spare: Seq<char>, tool: Seq<char>, source: Seq<char>) -> Seq<Candidate> {
    seq![
        Candidate { tool: spare, source, required: false },
        Candidate { tool, source, required: true },
    ]
}

fn one_candidate(tool: &str, source: &str) -> (r: Vec<ConfigureToolCandidate>)
    ensures
        models(r@) == only(tool@, source@),
{
    let mut v: Vec<ConfigureToolCandidate> = Vec::new();
    v.push(ConfigureToolCandidate { tool: owned(tool), source: owned(source), required: true });
    assert(models(v@) =~= only(tool@, source@));
    v
}

fn two_candidates(spare: &str, tool: &str, source: &str) -> (r: Vec<ConfigureToolCandidate>)
    ensures
        models(r@) == either(spare@, tool@, source@),
{
    let mut v: Vec<ConfigureToolCandidate> = Vec::new();
    v.push(ConfigureToolCandidate { tool: owned(spare), source: owned(source), required: false });
    v.push(ConfigureToolCandidate { tool: owned(tool), source: owned(source), required: true });
    assert(models(v@) =~= either(spare@, tool@, source@));
    v
}

fn no_candidates() -> (r: Vec<ConfigureToolCandidate>)
    ensures
        models(r@) == Seq::<Candidate>::empty(),
{
    let v: Vec<ConfigureToolCandidate> = Vec::new();
    assert(models(v@) =~= Seq::<Candidate>::empty());
    v
}

/// The formatters that can be chosen by name.
pub open spec fn known_formatter(name: Seq<char>) -> bool {
    name == "biome"@ || name == "prettier"@ || name == "deno"@ || name == "ruff"@ || name
        == "black"@ || name == "rustfmt"@ || name == "goimports"@ || name == "gofmt"@
}

/// The checkers that can be chosen by name.
pub open spec fn known_checker(name: Seq<char>) -> bool {
    name == "tsc"@ || name == "cargo"@ || name == "go"@ || name == "biome"@ || name == "pyright"@
        || name == "ruff"@ || name == "staticcheck"@
}

/// The formatter that was chosen by name; none for a name that is not known.
pub open spec fn chosen_formatter(name: Seq<char>) -> Seq<Candidate> {
    if known_formatter(name) {
        only(name, "formatter config"@)
    } else {
        Seq::empty()
    }
}

/// The checker that was chosen by name; none for a name that is not known.
pub open spec fn chosen_checker(name: Seq<char>) -> Seq<Candidate> {
    if known_checker(name) {
        only(name, "checker config"@)
    } else {
        Seq::empty()
    }
}

fn explicit_formatter_candidate(name: &str) -> (r: Vec<ConfigureToolCandidate>)
    ensures
        models(r@) == chosen_formatter(name@),
{
    if same(name, "biome") || same(name, "prettier") || same(name, "deno") || same(name, "ruff")
        || same(name, "black") || same(name, "rustfmt") || same(name, "goimports") || same(
        name,
        "gofmt",
    ) {
        one_candidate(name, "formatter config")
    } else {
        no_candidates()
    }
}

fn explicit_checker_candidate(name: &str) -> (r: Vec<ConfigureToolCandidate>)
    ensures
        models(r@) == chosen_checker(name@),
{
    if same(name, "tsc") || same(name, "cargo") || same(name, "go") || same(name, "biome") || same(
        name,
        "pyright",
    ) || same(name, "ruff") || same(name, "staticcheck") {
        one_candidate(name, "checker config")
    } else {
        no_candidates()
    }
}

/// Whether a project is set up for Prettier.
pub open spec fn uses_prettier(p: Project) -> bool {
    p.has(".prettierrc"@) || p.has(".prettierrc.json"@) || p.has(".prettierrc.yml"@) || p.has(
        ".prettierrc.yaml"@,
    ) || p.has(".prettierrc.js"@) || p.has(".prettierrc.cjs"@) || p.has(".prettierrc.mjs"@)
        || p.has(".prettierrc.toml"@) || p.has("prettier.config.js"@) || p.has(
        "prettier.config.cjs"@,
    ) || p.has("prettier.config.mjs"@)
}

fn has_prettier(p: &ProjectFiles) -> (r: bool)
    ensures
        r == uses_prettier(p@),
{
    p.has(".prettierrc") || p.has(".prettierrc.json") || p.has(".prettierrc.yml") || p.has(
        ".prettierrc.yaml",
    ) || p.has(".prettierrc.js") || p.has(".prettierrc.cjs") || p.has(".prettierrc.mjs") || p.has(
        ".prettierrc.toml",
    ) || p.has("prettier.config.js") || p.has("prettier.config.cjs") || p.has(
        "prettier.config.mjs",
    )
}

/// Whether a project is set up for Ruff.
pub open spec fn uses_ruff(p: Project) -> bool {
    p.has("ruff.toml"@) || p.has(".ruff.toml"@) || p.has_tool("ruff"@)
}

fn has_ruff(p: &ProjectFiles) -> (r: bool)
    ensures
        r == uses_ruff(p@),
{
    p.has("ruff.toml") || p.has(".ruff.toml") || p.has_pyproject_tool("ruff")
}

/// The formatters that a project needs for a language: the chosen one, or else what the
/// project's files ask for.
pub open spec fn formatters(lang: LangId, chosen: Option<Seq<char>>, p: Project) -> Seq<Candidate> {
    match chosen {
        Some(name) => chosen_formatter(name),
        None => match lang {
            LangId::TypeScript | LangId::JavaScript | LangId::Tsx => {
                if p.has("biome.json"@) || p.has("biome.jsonc"@) {
                    only("biome"@, "biome.json"@)
                } else if uses_prettier(p) {
                    only("prettier"@, "Prettier config"@)
                } else if p.has("deno.json"@) || p.has("deno.jsonc"@) {
                    only("deno"@, "deno.json"@)
                } else {
                    Seq::empty()
                }
            },
            LangId::Python => {
                if uses_ruff(p) {
                    only("ruff"@, "ruff config"@)
                } else if p.has_tool("black"@) {
                    only("black"@, "pyproject.toml"@)
                } else {
                    Seq::empty()
                }
            },
            LangId::Rust => {
                if p.has("Cargo.toml"@) {
                    only("rustfmt"@, "Cargo.toml"@)
                } else {
                    Seq::empty()
                }
            },
            LangId::Go => {
                if p.has("go.mod"@) {
                    either("goimports"@, "gofmt"@, "go.mod"@)
                } else {
                    Seq::empty()
                }
            },
            _ => Seq::empty(),
        },
    }
}

/// The formatters that a project needs for a language.
pub fn formatter_candidates(lang: LangId, chosen: Option<&str>, project: &ProjectFiles) -> (r: Vec<
    ConfigureToolCandidate,
>)
    ensures
        models(r@) == formatters(
            lang,
            match chosen {
                Some(s) => Some(s@),
                None => None,
            },
            project@,
        ),
{
    if let Some(name) = chosen {
        return explicit_formatter_candidate(name);
    }
    match lang {
        LangId::TypeScript | LangId::JavaScript | LangId::Tsx => {
            if project.has("biome.json") || project.has("biome.jsonc") {
                one_candidate("biome", "biome.json")
            } else if has_prettier(project) {
                one_candidate("prettier", "Prettier config")
            } else if project.has("deno.json") || project.has("deno.jsonc") {
                one_candidate("deno", "deno.json")
            } else {
                no_candidates()
            }
        },
        LangId::Python => {
            if has_ruff(project) {
                one_candidate("ruff", "ruff config")
            } else if project.has_pyproject_tool("black") {
                one_candidate("black", "pyproject.toml")
            } else {
                no_candidates()
            }
        },
        LangId::Rust => {
            if project.has("Cargo.toml") {
                one_candidate("rustfmt", "Cargo.toml")
            } else {
                no_candidates()
            }
        },
        LangId::Go => {
            if project.has("go.mod") {
                two_candidates("goimports", "gofmt", "go.mod")
            } else {
                no_candidates()
            }
        },
        _ => no_candidates(),
    }
}

/// The checkers that a project needs for a language: the chosen one, or else what the
/// project's files ask for.
pub open spec fn checkers(lang: LangId, chosen: Option<Seq<char>>, p: Project) -> Seq<Candidate> {
    match chosen {
        Some(name) => chosen_checker(name),
        None => match lang {
            LangId::TypeScript | LangId::JavaScript | LangId::Tsx => {
                if p.has("biome.json"@) || p.has("biome.jsonc"@) {
                    only("biome"@, "biome.json"@)
                } else if p.has("tsconfig.json"@) {
                    only("tsc"@, "tsconfig.json"@)
                } else {
                    Seq::empty()
                }
            },
            LangId::Python => {
                if p.has("pyrightconfig.json"@) || p.has_tool("pyright"@) {
                    only("pyright"@, "pyright config"@)
                } else if uses_ruff(p) {
                    only("ruff"@, "ruff config"@)
                } else {
                    Seq::empty()
                }
            },
            LangId::Rust => {
                if p.has("Cargo.toml"@) {
                    only("cargo"@, "Cargo.toml"@)
                } else {
                    Seq::empty()
                }
            },
            LangId::Go => {
                if p.has("go.mod"@) {
                    either("staticcheck"@, "go"@, "go.mod"@)
                } else {
                    Seq::empty()
                }
            },
            _ => Seq::empty(),
        },
    }
}

/// The checkers that a project needs for a language.
pub fn checker_candidates(lang: LangId, chosen: Option<&str>, project: &ProjectFiles) -> (r: Vec<
    ConfigureToolCandidate,
>)
    ensures
        models(r@) == checkers(
            lang,
            match chosen {
                Some(s) => Some(s@),
                None => None,
            },
            project@,
        ),
{
    if let Some(name) = chosen {
        return explicit_checker_candidate(name);
    }
    match lang {
        LangId::TypeScript | LangId::JavaScript | LangId::Tsx => {
            if project.has("biome.json") || project.has("biome.jsonc") {
                one_candidate("biome", "biome.json")
            } else if project.has("tsconfig.json") {
                one_candidate("tsc", "tsconfig.json")
            } else {
                no_candidates()
            }
        },
        LangId::Python => {
            if project.has("pyrightconfig.json") || project.has_pyproject_tool("pyright") {
                one_candidate("pyright", "pyright config")
            } else if has_ruff(project) {
                one_candidate("ruff", "ruff config")
            } else {
                no_candidates()
            }
        },
        LangId::Rust => {
            if project.has("Cargo.toml") {
                one_candidate("cargo", "Cargo.toml")
            } else {
                no_candidates()
            }
        },
        LangId::Go => {
            if project.has("go.mod") {
                two_candidates("staticcheck", "go", "go.mod")
            } else {
                no_candidates()
            }
        },
        _ => no_candidates(),
    }
}

/// What is known of tools: which can be run, and how each can be installed.
pub struct ToolFacts {
    pub available: Vec<String>,
    pub hints: Vec<Entry<String>>,
}

/// The model of a `ToolFacts`.
pub ghost struct Tools {
    pub available: Seq<Seq<char>>,
    pub hints: Seq<(Seq<char>, Seq<char>)>,
}

impl View for ToolFacts {
    type V = Tools;

    open spec fn view(&self) -> Tools {
        Tools { available: texts(self.available@), hints: models(self.hints@) }
    }
}

impl Tools {
    /// How a tool can be installed.
    pub open spec fn hint(self, tool: Seq<char>) -> Seq<char> {
        match table_get(self.hints, tool) {
            Some(s) => s,
            None => Seq::empty(),
        }
    }
}

impl ToolFacts {
    fn hint(&self, tool: &str) -> (r: String)
        ensures
            r@ == self@.hint(tool@),
    {
        match get_entry(&self.hints, tool) {
            Some(s) => owned(s.as_str()),
            None => String::new(),
        }
    }
}

/// A tool that is needed and not installed.
pub struct MissingTool {
    pub kind: String,
    pub language: String,
    pub tool: String,
    pub hint: String,
}

/// The model of a `MissingTool`.
pub ghost struct Missing {
    pub kind: Seq<char>,
    pub language: Seq<char>,
    pub tool: Seq<char>,
    pub hint: Seq<char>,
}

impl DeepView for MissingTool {
    type V = Missing;

    open spec fn deep_view(&self) -> Missing {
        Missing {
            kind: self.kind@,
            language: self.language@,
            tool: self.tool@,
            hint: self.hint@,
        }
    }
}

impl Ranked for MissingTool {
    open spec fn before(a: Missing, b: Missing) -> bool {
        if a.kind != b.kind {
            text_lt(a.kind, b.kind)
        } else if a.language != b.language {
            text_lt(a.language, b.language)
        } else {
            text_lt(a.tool, b.tool)
        }
    }

    fn precedes(&self, other: &MissingTool) -> (r: bool) {
        if !same(self.kind.as_str(), other.kind.as_str()) {
            less(self.kind.as_str(), other.kind.as_str())
        } else if !same(self.language.as_str(), other.language.as_str()) {
            less(self.language.as_str(), other.language.as_str())
        } else {
            less(self.tool.as_str(), other.tool.as_str())
        }
    }
}

/// What is told of a candidate that is needed and cannot be run.
pub open spec fn missing_of(
    kind: Seq<char>,
    language: Seq<char>,
    c: Candidate,
    tools: Tools,
) -> Option<Missing> {
    if !c.required || tools.available.contains(c.tool) {
        None
    } else {
        Some(
            Missing {
                kind,
                language,
                tool: c.tool,
                hint: c.tool + " is configured in "@ + c.source + " but not installed. "@
                    + tools.hint(c.tool),
            },
        )
    }
}

/// Whether one of `list` is of the same kind, language and tool.
pub open spec fn told_already(list: Seq<Missing>, m: Missing) -> bool {
    exists|i: int|
        0 <= i < list.len() && #[trigger] list[i].kind == m.kind && list[i].language == m.language
            && list[i].tool == m.tool
}

/// `list` with what is missing of the first `n` candidates.
pub open spec fn with_missing(
    list: Seq<Missing>,
    kind: Seq<char>,
    language: Seq<char>,
    candidates: Seq<Candidate>,
    tools: Tools,
    n: int,
) -> Seq<Missing>
    decreases n,
{
    if n <= 0 || n > candidates.len() {
        list
    } else {
        let before = with_missing(list, kind, language, candidates, tools, n - 1);
        match missing_of(kind, language, candidates[n - 1], tools) {
            Some(m) => if told_already(before, m) {
                before
            } else {
                before.push(m)
            },
            None => before,
        }
    }
}

fn add_missing(
    list: &mut Vec<MissingTool>,
    kind: &str,
    language: &str,
    candidates: &Vec<ConfigureToolCandidate>,
    tools: &ToolFacts,
)
    ensures
        models(final(list)@) == with_missing(
            models(old(list)@),
            kind@,
            language@,
            models(candidates@),
            tools@,
            candidates@.len() as int,
        ),
{
    broadcast use group_models;

    let ghost start = models(list@);
    let ghost all = models(candidates@);
    let mut i: usize = 0;
    while i < candidates.len()
        invariant
            i <= candidates.len(),
            all == models(candidates@),
            models(list@) == with_missing(start, kind@, language@, all, tools@, i as int),
        decreases candidates.len() - i,
    {
        let c = &candidates[i];
        assert(all[i as int] == c.deep_view());
        if c.required && !contains_text(&tools.available, c.tool.as_str()) {
            let mut hint = text3(c.tool.as_str(), " is configured in ", c.source.as_str());
            hint.append(" but not installed. ");
            hint.append(tools.hint(c.tool.as_str()).as_str());
            let m = MissingTool {
                kind: owned(kind),
                language: owned(language),
                tool: owned(c.tool.as_str()),
                hint,
            };
            let ghost now = models(list@);
            let mut told = false;
            let mut k: usize = 0;
            while k < list.len() && !told
                invariant
                    k <= list.len(),
                    now == models(list@),
                    !told ==> forall|j: int|
                        0 <= j < k ==> !(#[trigger] now[j].kind == m.kind@ && now[j].language
                            == m.language@ && now[j].tool == m.tool@),
                    told ==> told_already(now, m.deep_view()),
                decreases list.len() - k + (if told {
                    0int
                } else {
                    1int
                }),
            {
                assert(now[k as int] == list@[k as int].deep_view());
                if same(list[k].kind.as_str(), m.kind.as_str()) && same(
                    list[k].language.as_str(),
                    m.language.as_str(),
                ) && same(list[k].tool.as_str(), m.tool.as_str()) {
                    assert(now[k as int].kind == m.deep_view().kind);
                    told = true;
                } else {
                    k = k + 1;
                }
            }
            if !told {
                list.push(m);
            }
        }
        i = i + 1;
    }
}

/// What is missing for the first `n` languages, formatters before checkers.
pub open spec fn missing_for(
    languages: Seq<LangId>,
    settings: Settings,
    p: Project,
    tools: Tools,
    n: int,
) -> Seq<Missing>
    decreases n,
{
    if n <= 0 || n > languages.len() {
        Seq::empty()
    } else {
        let lang = languages[n - 1];
        let key = key_of_lang(lang);
        let f = formatters(lang, table_get(settings.formatter, key), p);
        let c = checkers(lang, table_get(settings.checker, key), p);
        let before = missing_for(languages, settings, p, tools, n - 1);
        let more = with_missing(
            before,
            "formatter_not_installed"@,
            key,
            f,
            tools,
            f.len() as int,
        );
        with_missing(more, "checker_not_installed"@, key, c, tools, c.len() as int)
    }
}

/// The formatters and checkers that are missing for the languages of a project, by kind,
/// language and tool.
pub fn detect_missing_tools_for_languages(
    languages: &Vec<LangId>,
    config: &Config,
    project: &ProjectFiles,
    tools: &ToolFacts,
) -> (r: Vec<MissingTool>)
    ensures
        models(r@) == sorted::<MissingTool>(
            missing_for(
                languages@,
                config.deep_view(),
                project@,
                tools@,
                languages@.len() as int,
            ),
        ),
{
    broadcast use group_models;

    let mut list: Vec<MissingTool> = Vec::new();
    let mut i: usize = 0;
    while i < languages.len()
        invariant
            i <= languages.len(),
            models(list@) == missing_for(
                languages@,
                config.deep_view(),
                project@,
                tools@,
                i as int,
            ),
        decreases languages.len() - i,
    {
        let lang = languages[i];
        let language = lang_key(lang);
        let chosen = match get_entry(&config.formatter, language) {
            Some(s) => Some(s.as_str()),
            None => None,
        };
        let f = formatter_candidates(lang, chosen, project);
        add_missing(&mut list, "formatter_not_installed", language, &f, tools);
        let chosen = match get_entry(&config.checker, language) {
            Some(s) => Some(s.as_str()),
            None => None,
        };
        let c = checker_candidates(lang, chosen, project);
        add_missing(&mut list, "checker_not_installed", language, &c, tools);
        i = i + 1;
    }
    sort_list(list)
}

/// A language server that serves a file of the project.
pub struct FileServer {
    pub id: String,
    pub binary: String,
    pub custom: bool,
}

/// The model of a `FileServer`.
pub ghost struct Serving {
    pub id: Seq<char>,
    pub binary: Seq<char>,
    pub custom: bool,
}

impl DeepView for FileServer {
    type V = Serving;

    open spec fn deep_view(&self) -> Serving {
        Serving { id: self.id@, binary: self.binary@, custom: self.custom }
    }
}

/// A language server that is not installed.
pub struct MissingServer {
    pub server: String,
    pub binary: String,
    pub hint: String,
}

/// The model of a `MissingServer`.
pub ghost struct Absent {
    pub server: Seq<char>,
    pub binary: Seq<char>,
    pub hint: Seq<char>,
}

impl DeepView for MissingServer {
    type V = Absent;

    open spec fn deep_view(&self) -> Absent {
        Absent { server: self.server@, binary: self.binary@, hint: self.hint@ }
    }
}

/// How a missing server is told.
pub open spec fn absent_json(a: Absent) -> JsonModel {
    JsonModel::Object(
        seq![
            ("binary"@, JsonModel::Text(a.binary)),
            ("hint"@, JsonModel::Text(a.hint)),
            ("kind"@, JsonModel::Text("lsp_binary_missing"@)),
            ("server"@, JsonModel::Text(a.server)),
        ],
    )
}

fn text_member(key: &str, value: &str) -> (r: Member)
    ensures
        r.key@ == key@,
        r.value.model() == JsonModel::Text(value@),
{
    Member { key: owned(key), value: Json::Text(owned(value)) }
}

impl MissingServer {
    /// How the missing server is told.
    pub fn to_json(&self) -> (r: Json)
        ensures
            r.model() == absent_json(self.deep_view()),
    {
        let mut members: Vec<Member> = Vec::new();
        members.push(text_member("binary", self.binary.as_str()));
        members.push(text_member("hint", self.hint.as_str()));
        members.push(text_member("kind", "lsp_binary_missing"));
        members.push(text_member("server", self.server.as_str()));
        let r = Json::Object(members);
        assert(r.model()->Object_0 =~= absent_json(self.deep_view())->Object_0);
        r
    }
}

impl Ranked for MissingServer {
    open spec fn before(a: Absent, b: Absent) -> bool {
        text_lt(json_text(absent_json(a)), json_text(absent_json(b)))
    }

    fn precedes(&self, other: &MissingServer) -> (r: bool) {
        let a = self.to_json().to_text();
        let b = other.to_json().to_text();
        less(a.as_str(), b.as_str())
    }
}

/// The servers that have been looked at, and those of them that are missing.
#[verifier::ext_equal]
pub ghost struct ServerScan {
    pub seen: Seq<(Seq<char>, Seq<char>)>,
    pub missing: Seq<Absent>,
}

/// The scan after a server that is called `shown` where it is missing; `wanted` tells whether
/// its absence matters.
pub open spec fn scan_server(
    scan: ServerScan,
    id: Seq<char>,
    binary: Seq<char>,
    shown: Seq<char>,
    wanted: bool,
    tools: Tools,
) -> ServerScan {
    if scan.seen.contains((id, binary)) {
        scan
    } else {
        ServerScan {
            seen: scan.seen.push((id, binary)),
            missing: if wanted && !tools.available.contains(binary) {
                scan.missing.push(
                    Absent { server: shown, binary, hint: tools.hint(binary) },
                )
            } else {
                scan.missing
            },
        }
    }
}

/// The scan after the first `n` servers of the project's files.
pub open spec fn scan_files(servers: Seq<Serving>, settings: Settings, tools: Tools, n: int) -> ServerScan
    decreases n,
{
    if n <= 0 || n > servers.len() {
        ServerScan { seen: Seq::empty(), missing: Seq::empty() }
    } else {
        let before = scan_files(servers, settings, tools, n - 1);
        let s = servers[n - 1];
        if s.custom {
            before
        } else {
            scan_server(
                before,
                s.id,
                s.binary,
                s.binary,
                settings.lsp_auto_install_binaries.contains(s.binary)
                    && !settings.lsp_inflight_installs.contains(s.binary),
                tools,
            )
        }
    }
}

/// The scan after the first `n` servers that the user has described.
pub open spec fn scan_defined(
    start: ServerScan,
    servers: Seq<ServerDef>,
    settings: Settings,
    tools: Tools,
    n: int,
) -> ServerScan
    decreases n,
{
    if n <= 0 || n > servers.len() {
        start
    } else {
        let before = scan_defined(start, servers, settings, tools, n - 1);
        let s = servers[n - 1];
        if s.disabled {
            before
        } else {
            scan_server(
                before,
                s.id,
                s.binary,
                s.id,
                !settings.lsp_inflight_installs.contains(s.binary),
                tools,
            )
        }
    }
}

fn see_server(
    seen: &mut Vec<(String, String)>,
    missing: &mut Vec<MissingServer>,
    id: &str,
    binary: &str,
    shown: &str,
    wanted: bool,
    tools: &ToolFacts,
)
    ensures
        (ServerScan { seen: models(final(seen)@), missing: models(final(missing)@) })
            == scan_server(
            ServerScan { seen: models(old(seen)@), missing: models(old(missing)@) },
            id@,
            binary@,
            shown@,
            wanted,
            tools@,
        ),
{
    broadcast use group_models;

    let ghost all = models(seen@);
    let mut i: usize = 0;
    while i < seen.len()
        invariant
            i <= seen.len(),
            all == models(seen@),
            *seen == *old(seen),
            *missing == *old(missing),
            forall|k: int| 0 <= k < i ==> all[k] != (id@, binary@),
        decreases seen.len() - i,
    {
        assert(all[i as int] == (seen@[i as int].0@, seen@[i as int].1@));
        if same(seen[i].0.as_str(), id) && same(seen[i].1.as_str(), binary) {
            assert(all.contains((id@, binary@)));
            return ;
        }
        i = i + 1;
    }
    assert(!all.contains((id@, binary@)));
    let pair = (owned(id), owned(binary));
    assert(pair.deep_view() == (id@, binary@));
    seen.push(pair);
    if wanted && !contains_text(&tools.available, binary) {
        missing.push(
            MissingServer { server: owned(shown), binary: owned(binary), hint: tools.hint(binary) },
        );
    }
}

/// The language servers that are missing, in the order of their texts. `servers` are those
/// of the project's files, file by file.
pub fn detect_missing_lsp_binaries(
    servers: &Vec<FileServer>,
    config: &Config,
    tools: &ToolFacts,
) -> (r: Vec<MissingServer>)
    ensures
        ({
            let settings = config.deep_view();
            models(r@) == sorted::<MissingServer>(
                scan_defined(
                    scan_files(models(servers@), settings, tools@, servers@.len() as int),
                    settings.lsp_servers,
                    settings,
                    tools@,
                    settings.lsp_servers.len() as int,
                ).missing,
            )
        }),
{
    broadcast use group_models;

    let ghost settings = config.deep_view();
    let ghost all = models(servers@);
    let mut seen: Vec<(String, String)> = Vec::new();
    let mut missing: Vec<MissingServer> = Vec::new();
    let mut i: usize = 0;
    while i < servers.len()
        invariant
            i <= servers.len(),
            all == models(servers@),
            settings == config.deep_view(),
            (ServerScan { seen: models(seen@), missing: models(missing@) }) == scan_files(
                all,
                settings,
                tools@,
                i as int,
            ),
        decreases servers.len() - i,
    {
        let s = &servers[i];
        assert(all[i as int] == s.deep_view());
        if !s.custom {
            assert(models(config.lsp_auto_install_binaries@) =~= texts(
                config.lsp_auto_install_binaries@,
            ));
            assert(models(config.lsp_inflight_installs@) =~= texts(config.lsp_inflight_installs@));
            let wanted = contains_text(&config.lsp_auto_install_binaries, s.binary.as_str())
                && !contains_text(&config.lsp_inflight_installs, s.binary.as_str());
            see_server(
                &mut seen,
                &mut missing,
                s.id.as_str(),
                s.binary.as_str(),
                s.binary.as_str(),
                wanted,
                tools,
            );
        }
        i = i + 1;
    }
    let ghost start = ServerScan { seen: models(seen@), missing: models(missing@) };
    let mut i: usize = 0;
    while i < config.lsp_servers.len()
        invariant
            i <= config.lsp_servers.len(),
            settings == config.deep_view(),
            (ServerScan { seen: models(seen@), missing: models(missing@) }) == scan_defined(
                start,
                settings.lsp_servers,
                settings,
                tools@,
                i as int,
            ),
        decreases config.lsp_servers.len() - i,
    {
        let s = &config.lsp_servers[i];
        assert(settings.lsp_servers[i as int] == s.deep_view());
        if !s.disabled {
            assert(models(config.lsp_inflight_installs@) =~= texts(config.lsp_inflight_installs@));
            let wanted = !contains_text(&config.lsp_inflight_installs, s.binary.as_str());
            see_server(
                &mut seen,
                &mut missing,
                s.id.as_str(),
                s.binary.as_str(),
                s.id.as_str(),
                wanted,
                tools,
            );
        }
        i = i + 1;
    }
    sort_list(missing)
}

/// Whether a version is one that can format: three numbers from 0.1.2 on, behind an optional
/// `ruff`. What follows the third number must be a fourth part.
pub open spec fn ruff_can_format(output: Seq<char>) -> bool {
    let text = trimmed(output);
    let version = if "ruff "@.is_prefix_of(text) {
        text.skip(5)
    } else {
        text
    };
    let parts = split_on(version, '.');
    if parts.len() < 3 {
        false
    } else {
        match (unsigned_value(parts[0]), unsigned_value(parts[1]), unsigned_value(parts[2])) {
            (Some(a), Some(b), Some(c)) => a <= u32::MAX && b <= u32::MAX && c <= u32::MAX && (a > 0
                || b > 1 || (b == 1 && c >= 2)),
            _ => false,
        }
    }
}

/// Whether the output of `ruff --version` names a version that can format.
pub fn ruff_version_can_format(output: &str) -> (r: bool)
    ensures
        r == ruff_can_format(output@),
{
    let all = chars_of(output);
    let text = trim_chars(all.as_slice());
    let whole = string_of(text);
    let version = if starts_with(whole.as_str(), "ruff ") {
        proof {
            reveal_strlit("ruff ");
        }
        let rest = vstd::slice::slice_subrange(text, 5, text.len());
        assert(rest@ =~= text@.skip(5));
        rest
    } else {
        text
    };
    let parts = split_chars(version, '.');
    assert(texts(parts@) == split_on(version@, '.'));
    assert(forall|k: int| 0 <= k < parts@.len() ==> texts(parts@)[k] == #[trigger] parts@[k]@);
    if parts.len() < 3 {
        return false;
    }
    match (
        parse_u32(parts[0].as_str()),
        parse_u32(parts[1].as_str()),
        parse_u32(parts[2].as_str()),
    ) {
        (Some(a), Some(b), Some(c)) => a > 0 || b > 1 || (b == 1 && c >= 2),
        _ => false,
    }
}

/// Whether a list of candidates is one tool that has to be there.
pub open spec fn is_only(list: Seq<Candidate>, tool: Seq<char>) -> bool {
    list.len() == 1 && list[0].tool == tool && list[0].required
}

/// Whether a project has a file of Prettier's.
pub open spec fn has_prettier_file(p: Project) -> bool {
    ||| p.names.contains(".prettierrc"@)
    ||| p.names.contains(".prettierrc.json"@)
    ||| p.names.contains(".prettierrc.yml"@)
    ||| p.names.contains(".prettierrc.yaml"@)
    ||| p.names.contains(".prettierrc.js"@)
    ||| p.names.contains(".prettierrc.cjs"@)
    ||| p.names.contains(".prettierrc.mjs"@)
    ||| p.names.contains(".prettierrc.toml"@)
    ||| p.names.contains("prettier.config.js"@)
    ||| p.names.contains("prettier.config.cjs"@)
    ||| p.names.contains("prettier.config.mjs"@)
}

/// A formatter that was chosen is the one that is needed. Otherwise a project's files tell which is:
/// for scripts Biome before Prettier before Deno, for Python Ruff before Black, for Rust rustfmt,
/// and for Go gofmt with goimports before it; a project without these files needs none.
pub proof fn formatters_are_told_by_the_project(lang: LangId, name: Seq<char>, p: Project)
    ensures
        ({
            let chosen = formatters(lang, Some(name), p);
            let r = formatters(lang, None, p);
            let script = lang is TypeScript || lang is JavaScript || lang is Tsx;
            let biome = p.names.contains("biome.json"@) || p.names.contains("biome.jsonc"@);
            let deno = p.names.contains("deno.json"@) || p.names.contains("deno.jsonc"@);
            let ruff = p.names.contains("ruff.toml"@) || p.names.contains(".ruff.toml"@)
                || p.has_tool("ruff"@);
            let known = name == "biome"@ || name == "prettier"@ || name == "deno"@ || name
                == "ruff"@ || name == "black"@ || name == "rustfmt"@ || name == "goimports"@ || name
                == "gofmt"@;
            &&& known ==> is_only(chosen, name)
            &&& !known ==> chosen.len() == 0
            &&& script && biome ==> is_only(r, "biome"@)
            &&& script && !biome && has_prettier_file(p) ==> is_only(r, "prettier"@)
            &&& script && !biome && !has_prettier_file(p) && deno ==> is_only(r, "deno"@)
            &&& script && !biome && !has_prettier_file(p) && !deno ==> r.len() == 0
            &&& lang is Python && ruff ==> is_only(r, "ruff"@)
            &&& lang is Python && !ruff && p.has_tool("black"@) ==> is_only(r, "black"@)
            &&& lang is Python && !ruff && !p.has_tool("black"@) ==> r.len() == 0
            &&& lang is Rust && p.names.contains("Cargo.toml"@) ==> is_only(r, "rustfmt"@)
            &&& lang is Rust && !p.names.contains("Cargo.toml"@) ==> r.len() == 0
            &&& lang is Go && p.names.contains("go.mod"@) ==> r.len() == 2 && r[0].tool
                == "goimports"@ && !r[0].required && r[1].tool == "gofmt"@ && r[1].required
            &&& lang is Go && !p.names.contains("go.mod"@) ==> r.len() == 0
            &&& !script && !(lang is Python) && !(lang is Rust) && !(lang is Go) ==> r.len() == 0
        }),
{
}

/// A checker that was chosen is the one that is needed. Otherwise a project's files tell which is:
/// for scripts Biome before the compiler, for Python Pyright before Ruff, for Rust Cargo, and for Go
/// its own with staticcheck before it; a project without these files needs none.
pub proof fn checkers_are_told_by_the_project(lang: LangId, name: Seq<char>, p: Project)
    ensures
        ({
            let chosen = checkers(lang, Some(name), p);
            let r = checkers(lang, None, p);
            let script = lang is TypeScript || lang is JavaScript || lang is Tsx;
            let biome = p.names.contains("biome.json"@) || p.names.contains("biome.jsonc"@);
            let pyright = p.names.contains("pyrightconfig.json"@) || p.has_tool("pyright"@);
            let ruff = p.names.contains("ruff.toml"@) || p.names.contains(".ruff.toml"@)
                || p.has_tool("ruff"@);
            let known = name == "tsc"@ || name == "cargo"@ || name == "go"@ || name == "biome"@
                || name == "pyright"@ || name == "ruff"@ || name == "staticcheck"@;
            &&& known ==> is_only(chosen, name)
            &&& !known ==> chosen.len() == 0
            &&& script && biome ==> is_only(r, "biome"@)
            &&& script && !biome && p.names.contains("tsconfig.json"@) ==> is_only(r, "tsc"@)
            &&& script && !biome && !p.names.contains("tsconfig.json"@) ==> r.len() == 0
            &&& lang is Python && pyright ==> is_only(r, "pyright"@)
            &&& lang is Python && !pyright && ruff ==> is_only(r, "ruff"@)
            &&& lang is Python && !pyright && !ruff ==> r.len() == 0
            &&& lang is Rust && p.names.contains("Cargo.toml"@) ==> is_only(r, "cargo"@)
            &&& lang is Rust && !p.names.contains("Cargo.toml"@) ==> r.len() == 0
            &&& lang is Go && p.names.contains("go.mod"@) ==> r.len() == 2 && r[0].tool
                == "staticcheck"@ && !r[0].required && r[1].tool == "go"@ && r[1].required
            &&& lang is Go && !p.names.contains("go.mod"@) ==> r.len() == 0
            &&& !script && !(lang is Python) && !(lang is Rust) && !(lang is Go) ==> r.len() == 0
        }),
{
}

/// A tool that is needed and cannot be run is told, with its kind, its language and how to get it;
/// one that can be run, and one that may be missing, is not.
pub proof fn missing_tools_are_told(
    kind: Seq<char>,
    language: Seq<char>,
    c: Candidate,
    tools: Tools,
)
    ensures
        match missing_of(kind, language, c, tools) {
            Some(m) => c.required && !tools.available.contains(c.tool) && m.kind == kind
                && m.language == language && m.tool == c.tool && m.hint == c.tool
                + " is configured in "@ + c.source + " but not installed. "@ + tools.hint(c.tool),
            None => !c.required || tools.available.contains(c.tool),
        },
{
}

/// A server is looked at once. Where it is wanted and its program cannot be run it is told as
/// missing, and otherwise not.
pub proof fn missing_servers_are_told_once(
    scan: ServerScan,
    id: Seq<char>,
    binary: Seq<char>,
    shown: Seq<char>,
    wanted: bool,
    tools: Tools,
)
    ensures
        ({
            let r = scan_server(scan, id, binary, shown, wanted, tools);
            &&& scan.seen.contains((id, binary)) ==> r == scan
            &&& !scan.seen.contains((id, binary)) ==> r.seen == scan.seen.push((id, binary))
            &&& !scan.seen.contains((id, binary)) && wanted && !tools.available.contains(binary)
                ==> r.missing.len() == scan.missing.len() + 1 && r.missing.last().server == shown
                && r.missing.last().binary == binary && r.missing.last().hint == tools.hint(binary)
                && r.missing.drop_last() == scan.missing
            &&& !wanted || tools.available.contains(binary) ==> r.missing == scan.missing
        }),
{
    let r = scan_server(scan, id, binary, shown, wanted, tools);
    if r.missing.len() == scan.missing.len() + 1 {
        assert(r.missing.drop_last() =~= scan.missing);
    }
}

/// The servers of a project's files are told as missing where they are to be installed and are not
/// being installed; those that a user described, wherever they are not being installed. Those that
/// are switched off, and described ones among the first, are passed over.
pub proof fn servers_are_looked_for_where_they_matter(
    servers: Seq<Serving>,
    start: ServerScan,
    defined: Seq<ServerDef>,
    settings: Settings,
    tools: Tools,
    n: int,
)
    requires
        n > 0,
    ensures
        n <= servers.len() && servers[n - 1].custom ==> scan_files(servers, settings, tools, n)
            == scan_files(servers, settings, tools, n - 1),
        n <= servers.len() && !servers[n - 1].custom ==> scan_files(servers, settings, tools, n)
            == scan_server(
            scan_files(servers, settings, tools, n - 1),
            servers[n - 1].id,
            servers[n - 1].binary,
            servers[n - 1].binary,
            settings.lsp_auto_install_binaries.contains(servers[n - 1].binary)
                && !settings.lsp_inflight_installs.contains(servers[n - 1].binary),
            tools,
        ),
        n <= defined.len() && defined[n - 1].disabled ==> scan_defined(
            start,
            defined,
            settings,
            tools,
            n,
        ) == scan_defined(start, defined, settings, tools, n - 1),
        n <= defined.len() && !defined[n - 1].disabled ==> scan_defined(
            start,
            defined,
            settings,
            tools,
            n,
        ) == scan_server(
            scan_defined(start, defined, settings, tools, n - 1),
            defined[n - 1].id,
            defined[n - 1].binary,
            defined[n - 1].id,
            !settings.lsp_inflight_installs.contains(defined[n - 1].binary),
            tools,
        ),
{
}

/// Ruff formats from version 0.1.2 on.
pub proof fn ruff_formats_from_a_version_on(
    output: Seq<char>,
    version: Seq<char>,
    a: nat,
    b: nat,
    c: nat,
)
    requires
        !"ruff "@.is_prefix_of(trimmed(output)) ==> version == trimmed(output),
        "ruff "@.is_prefix_of(trimmed(output)) ==> version == trimmed(output).skip(5),
        split_on(version, '.').len() >= 3,
        unsigned_value(split_on(version, '.')[0]) == Some(a),
        unsigned_value(split_on(version, '.')[1]) == Some(b),
        unsigned_value(split_on(version, '.')[2]) == Some(c),
        a <= u32::MAX,
        b <= u32::MAX,
        c <= u32::MAX,
    ensures
        ruff_can_format(output) <==> a > 0 || b > 1 || (b == 1 && c >= 2),
{
}

/// The tools of a language are set under its name; scripts of all kinds share one.
pub proof fn tools_are_set_under_the_name_of_their_language(lang: LangId)
    ensures
        match lang {
            LangId::TypeScript | LangId::JavaScript | LangId::Tsx => key_of_lang(lang)
                == "typescript"@,
            LangId::Python => key_of_lang(lang) == "python"@,
            LangId::Rust => key_of_lang(lang) == "rust"@,
            LangId::Go => key_of_lang(lang) == "go"@,
            LangId::C => key_of_lang(lang) == "c"@,
            LangId::Cpp => key_of_lang(lang) == "cpp"@,
            LangId::Zig => key_of_lang(lang) == "zig"@,
            LangId::CSharp => key_of_lang(lang) == "csharp"@,
            LangId::Bash => key_of_lang(lang) == "bash"@,
            LangId::Html => key_of_lang(lang) == "html"@,
            LangId::Markdown => key_of_lang(lang) == "markdown"@,
        },
{
}

/// A missing tool is told behind those before it, unless one of the same kind, language and name is
/// told already.
pub proof fn missing_tools_are_told_once(
    list: Seq<Missing>,
    kind: Seq<char>,
    language: Seq<char>,
    candidates: Seq<Candidate>,
    tools: Tools,
    n: int,
)
    requires
        0 < n <= candidates.len(),
    ensures
        ({
            let before = with_missing(list, kind, language, candidates, tools, n - 1);
            let now = with_missing(list, kind, language, candidates, tools, n);
            let c = candidates[n - 1];
            let there = exists|i: int|
                0 <= i < before.len() && (#[trigger] before[i]).kind == kind && before[i].language
                    == language && before[i].tool == c.tool;
            let missing = c.required && !tools.available.contains(c.tool);
            &&& !missing || there ==> now == before
            &&& missing && !there ==> now.len() == before.len() + 1 && now.drop_last() == before
                && now.last().kind == kind && now.last().language == language && now.last().tool
                == c.tool
        }),
{
    let before = with_missing(list, kind, language, candidates, tools, n - 1);
    let now = with_missing(list, kind, language, candidates, tools, n);
    if now.len() == before.len() + 1 {
        assert(now.drop_last() =~= before);
    }
}

/// For each language the formatters that are missing are told before the checkers, each by what was
/// chosen for the language or by what the project asks for.
pub proof fn tools_are_looked_for_by_language(
    languages: Seq<LangId>,
    settings: Settings,
    p: Project,
    tools: Tools,
    n: int,
)
    requires
        0 < n <= languages.len(),
    ensures
        ({
            let lang = languages[n - 1];
            let key = key_of_lang(lang);
            let f = formatters(lang, table_get(settings.formatter, key), p);
            let c = checkers(lang, table_get(settings.checker, key), p);
            missing_for(languages, settings, p, tools, n) == with_missing(
                with_missing(
                    missing_for(languages, settings, p, tools, n - 1),
                    "formatter_not_installed"@,
                    key,
                    f,
                    tools,
                    f.len() as int,
                ),
                "checker_not_installed"@,
                key,
                c,
                tools,
                c.len() as int,
            )
        }),
{
}

} // verus!
