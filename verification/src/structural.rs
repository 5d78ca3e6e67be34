//! Structural patterns over source files, run by ast-grep.
use vstd::prelude::*;

use ast_grep_core::matcher::Pattern;
use ast_grep_core::meta_var::MetaVariable;
use ast_grep_core::tree_sitter::{LanguageExt, StrDoc};

use crate::ast_grep_lang::AstGrepLang;
use crate::models::models;

verus! {

/// A pattern language as ast-grep sees it. Patterns are put into the form that the grammar
/// accepts before they are handed over, so that nothing is left to do to them here.
#[derive(Clone)]
pub struct Grammar {
    pub lang: AstGrepLang,
}

/// The declaration of `ast_grep_core::matcher::PatternBuilder`.
#[verifier::external_type_specification]
#[verifier::external_body]
pub struct ExPatternBuilder<'a>(ast_grep_core::matcher::PatternBuilder<'a>);

/// The declaration of `ast_grep_core::Pattern`.
#[verifier::external_type_specification]
#[verifier::external_body]
pub struct ExPattern(ast_grep_core::Pattern);

/// The declaration of `ast_grep_core::matcher::PatternError`.
#[verifier::external_type_specification]
#[verifier::external_body]
pub struct ExPatternError(ast_grep_core::matcher::PatternError);

/// The declaration of `tree_sitter::Language`.
#[verifier::external_type_specification]
#[verifier::external_body]
pub struct ExLanguage(tree_sitter::Language);

impl ast_grep_core::language::Language for Grammar {
    fn expando_char(&self) -> char {
        self.lang.expando_char()
    }

    /// `tree_sitter::Language::id_for_node_kind`; nothing is claimed of the number.
    #[verifier::external_body]
    fn kind_to_id(&self, kind: &str) -> u16 {
        self.get_ts_language().id_for_node_kind(kind, true)
    }

    /// `tree_sitter::Language::field_id_for_name`; nothing is claimed of the number.
    #[verifier::external_body]
    fn field_to_id(&self, field: &str) -> Option<u16> {
        self.get_ts_language().field_id_for_name(field).map(|f| f.get())
    }

    /// `ast_grep_core::matcher::PatternBuilder::build` with the language's grammar; nothing is
    /// claimed of the pattern.
    #[verifier::external_body]
    fn build_pattern(&self, builder: &ast_grep_core::matcher::PatternBuilder) -> Result<
        ast_grep_core::Pattern,
        ast_grep_core::matcher::PatternError,
    > {
        builder.build(|src| StrDoc::try_new(src, self.clone()))
    }
}

impl LanguageExt for Grammar {
    /// The grammar of the language, from the grammar crates; nothing is claimed of it.
    #[verifier::external_body]
    fn get_ts_language(&self) -> tree_sitter::Language {
        match self.lang {
            AstGrepLang::TypeScript => tree_sitter_typescript::LANGUAGE_TYPESCRIPT.into(),
            AstGrepLang::Tsx => tree_sitter_typescript::LANGUAGE_TSX.into(),
            AstGrepLang::JavaScript => tree_sitter_javascript::LANGUAGE.into(),
            AstGrepLang::Python => tree_sitter_python::LANGUAGE.into(),
            AstGrepLang::Rust => tree_sitter_rust::LANGUAGE.into(),
            AstGrepLang::Go => tree_sitter_go::LANGUAGE.into(),
            AstGrepLang::C => tree_sitter_c::LANGUAGE.into(),
            AstGrepLang::Cpp => tree_sitter_cpp::LANGUAGE.into(),
            AstGrepLang::Zig => tree_sitter_zig::LANGUAGE.into(),
            AstGrepLang::CSharp => tree_sitter_c_sharp::LANGUAGE.into(),
        }
    }
}

/// What is wrong with a pattern in a language, where something is.
pub uninterp spec fn pattern_fault(pattern: Seq<char>, lang: AstGrepLang) -> Option<Seq<char>>;

/// Calls `ast_grep_core::Pattern::try_new`. Whether it fails, and with which message, is a
/// function of the pattern and the language alone, named `pattern_fault`.
#[verifier::external_body]
pub(crate) fn check_pattern(pattern: &str, grammar: Grammar) -> (r: Option<String>)
    ensures
        r.deep_view() == pattern_fault(pattern@, grammar.lang),
{
    Pattern::try_new(pattern, grammar).err().map(|e| e.to_string())
}

/// A node that matches a pattern.
pub struct GrepMatch {
    /// The line and the column of bytes at which it starts, and the line at which it ends, all
    /// counted from zero.
    pub line: usize,
    pub column: usize,
    pub end_line: usize,
    pub text: String,
}

/// The model of a `GrepMatch`.
pub ghost struct Hit {
    pub line: int,
    pub column: int,
    pub end_line: int,
    pub text: Seq<char>,
}

impl DeepView for GrepMatch {
    type V = Hit;

    open spec fn deep_view(&self) -> Hit {
        Hit {
            line: self.line as int,
            column: self.column as int,
            end_line: self.end_line as int,
            text: self.text@,
        }
    }
}

/// The nodes of a source text that match a pattern of which nothing is wrong, in order.
pub uninterp spec fn pattern_hits(
    source: Seq<char>,
    pattern: Seq<char>,
    lang: AstGrepLang,
) -> Seq<Hit>;

/// Calls `ast_grep_core::Node::find_all` on a source text. The matches are a function of the
/// text, the pattern and the language alone, named `pattern_hits`.
#[verifier::external_body]
pub(crate) fn find_hits(source: &str, pattern: &str, grammar: Grammar) -> (r: Vec<GrepMatch>)
    requires
        pattern_fault(pattern@, grammar.lang) is None,
    ensures
        models(r@) == pattern_hits(source@, pattern@, grammar.lang),
{
    let doc = grammar.ast_grep(source);
    let root = doc.root();
    let found = root.find_all(Pattern::new(pattern, grammar));
    found.map(|m| GrepMatch {
        line: m.start_pos().line(),
        column: m.start_pos().byte_point().1,
        end_line: m.end_pos().line(),
        text: m.text().to_string(),
    }).collect()
}

/// What a variable of a pattern stands for in a match.
pub struct Capture {
    pub name: String,
    /// Whether the variable can stand for several nodes.
    pub many: bool,
    /// The texts of the nodes.
    pub texts: Vec<String>,
}

/// What the variables of a pattern stand for in a match, in any order.
pub struct Captures {
    pub list: Vec<Capture>,
}

/// The model of what a variable stands for.
#[verifier::ext_equal]
pub ghost struct Captured {
    pub many: bool,
    pub texts: Seq<Seq<char>>,
}

/// What variables stand for, by name; a variable for a single node stands for nothing without
/// it, and of two entries of one name the later counts.
pub open spec fn captured(list: Seq<Capture>) -> Map<Seq<char>, Captured>
    decreases list.len(),
{
    if list.len() == 0 {
        Map::empty()
    } else {
        let c = list.last();
        let before = captured(list.drop_last());
        if c.many || c.texts@.len() > 0 {
            before.insert(c.name@, Captured { many: c.many, texts: models(c.texts@) })
        } else {
            before
        }
    }
}

impl DeepView for Captures {
    type V = Map<Seq<char>, Captured>;

    open spec fn deep_view(&self) -> Map<Seq<char>, Captured> {
        captured(self.list@)
    }
}

/// What the variables of a pattern stand for in its matches, match by match.
pub uninterp spec fn pattern_captures(
    source: Seq<char>,
    pattern: Seq<char>,
    lang: AstGrepLang,
) -> Seq<Map<Seq<char>, Captured>>;

/// Calls `ast_grep_core::NodeMatch::get_env` on every match that
/// `ast_grep_core::Node::find_all` finds. What the variables stand for is a function of the
/// text, the pattern and the language alone, named `pattern_captures`, with one item for each
/// match; the order in which the variables of one match come is not.
#[verifier::external_body]
pub(crate) fn find_captures(source: &str, pattern: &str, grammar: Grammar) -> (r: Vec<Captures>)
    requires
        pattern_fault(pattern@, grammar.lang) is None,
    ensures
        models(r@) == pattern_captures(source@, pattern@, grammar.lang),
        r@.len() == pattern_hits(source@, pattern@, grammar.lang).len(),
{
    let doc = grammar.ast_grep(source);
    let root = doc.root();
    root.find_all(Pattern::new(pattern, grammar)).map(|m| {
        let env = m.get_env();
        Captures { list: env.get_matched_variables().map(|v| {
            let (many, nodes, name) = match v {
                MetaVariable::Capture(n, _) => (false, Vec::from_iter(env.get_match(&n).cloned()), n),
                MetaVariable::MultiCapture(n) => (true, env.get_multiple_matches(&n), n),
                _ => (false, vec![], String::new()),
            };
            Capture { name, many, texts: nodes.iter().map(|n| n.text().into()).collect() }
        }).collect() }
    }).collect()
}

/// A replacement in the bytes of a source text.
pub struct GrepEdit {
    pub position: usize,
    pub deleted_length: usize,
    pub inserted_text: Vec<u8>,
}

/// The model of a `GrepEdit`.
pub ghost struct ByteEdit {
    pub start: int,
    pub len: int,
    pub text: Seq<u8>,
}

impl DeepView for GrepEdit {
    type V = ByteEdit;

    open spec fn deep_view(&self) -> ByteEdit {
        ByteEdit {
            start: self.position as int,
            len: self.deleted_length as int,
            text: self.inserted_text@,
        }
    }
}

/// The edits that put a template in the place of every match of a pattern of which nothing is
/// wrong, none inside another.
pub uninterp spec fn pattern_edits(
    source: Seq<char>,
    pattern: Seq<char>,
    rewrite: Seq<char>,
    lang: AstGrepLang,
) -> Seq<ByteEdit>;

/// Calls `ast_grep_core::Node::replace_all` on a source text. The edits are a function of the
/// text, the pattern, the template and the language alone, named `pattern_edits`.
#[verifier::external_body]
pub(crate) fn find_edits(source: &str, pattern: &str, rewrite: &str, grammar: Grammar) -> (r: Vec<
    GrepEdit,
>)
    requires
        pattern_fault(pattern@, grammar.lang) is None,
    ensures
        models(r@) == pattern_edits(source@, pattern@, rewrite@, grammar.lang),
{
    let doc = grammar.ast_grep(source);
    let edits = doc.root().replace_all(Pattern::new(pattern, grammar), rewrite);
    edits.into_iter().map(|e| GrepEdit {
        position: e.position,
        deleted_length: e.deleted_length,
        inserted_text: e.inserted_text,
    }).collect()
}

/// A variable stands for the texts of its nodes; one for a single node that has none stands for
/// nothing, and of two entries of one name the later counts.
pub proof fn variables_stand_for_their_nodes(list: Seq<Capture>, c: Capture, other: Seq<char>)
    ensures
        c.many || c.texts@.len() > 0 ==> captured(list.push(c)).dom().contains(c.name@) && captured(
            list.push(c),
        )[c.name@] == (Captured { many: c.many, texts: models(c.texts@) }),
        !c.many && c.texts@.len() == 0 ==> captured(list.push(c)) == captured(list),
        other != c.name@ ==> (captured(list.push(c)).dom().contains(other) <==> captured(
            list,
        ).dom().contains(other)) && captured(list.push(c))[other] == captured(list)[other],
{
    assert(list.push(c).drop_last() =~= list);
}

} // verus!
