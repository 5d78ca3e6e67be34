//! Moving lines of a file into a function of their own.
use vstd::prelude::*;

use crate::commands::refusal::{
    invalid, need, needed, refuse, refused, reject, verdict, Refusal, RefusalModel,
};
use crate::commands::target::{content_model, Target};
use crate::edit::{
    bytes, char_range, lemma_bytes_add, lemma_first_column, lemma_line_range, lemma_replaced_bytes,
    line_col_to_byte, line_offset, replace_byte_range, replaced, text_between, text_range,
};
use crate::error::Fault;
use crate::json::Json;
use crate::lang::{detect_language, path_lang, LangId};
use crate::syntax::{
    lemma_children, lemma_stands_within, opt_tree, parse, stands_in, syntax_of, trees, well_nested,
    SyntaxNode, Tree,
};
use crate::text::{
    chars_of, contains_str, decimal, decimal_text, indentation, leading_space, lines, lines_of,
    owned, same, string_of, strip_trailing, strs, text2, text3, text4, text5, texts,
    without_trailing,
};

verus! {

/// A request to move lines into a function.
pub struct ExtractRequest<'a> {
    pub file: &'a str,
    pub name: &'a str,
    /// The first line, counted from zero.
    pub start_line: u32,
    /// The line behind the last, counted from zero.
    pub end_line: u32,
}

/// The model of an `ExtractRequest`.
pub ghost struct ExtractAsk {
    pub file: Seq<char>,
    pub name: Seq<char>,
    pub start_line: u32,
    pub end_line: u32,
}

impl<'a> DeepView for ExtractRequest<'a> {
    type V = ExtractAsk;

    open spec fn deep_view(&self) -> ExtractAsk {
        ExtractAsk {
            file: self.file@,
            name: self.name@,
            start_line: self.start_line,
            end_line: self.end_line,
        }
    }
}

/// The line of a parameter, counted from zero, where the parameter counts from one. A number
/// that is no line number is refused.
pub open spec fn line_param(params: Json, key: Seq<char>) -> Result<u32, RefusalModel> {
    match params.unsigned_field(key) {
        None => Err(invalid("extract_function: missing required param '"@ + key + "'"@)),
        Some(n) => if n < 1 {
            Err(invalid("extract_function: '"@ + key + "' must be >= 1 (1-based)"@))
        } else if n > u32::MAX {
            Err(invalid("extract_function: '"@ + key + "' is out of range"@))
        } else {
            Ok((n - 1) as u32)
        },
    }
}

fn read_line_param(params: &Json, key: &str) -> (r: Result<u32, Refusal>)
    ensures
        match (r, line_param(*params, key@)) {
            (Ok(a), Ok(b)) => a == b,
            (Err(e), Err(m)) => e.deep_view() == m,
            _ => false,
        },
{
    match params.get_unsigned(key) {
        None => Err(
            reject(
                text3(
                    "extract_function: missing required param '",
                    key,
                    "'",
                ).as_str(),
            ),
        ),
        Some(n) => {
            if n < 1 {
                return Err(
                    reject(
                        text3(
                            "extract_function: '",
                            key,
                            "' must be >= 1 (1-based)",
                        ).as_str(),
                    ),
                );
            }
            if n > u32::MAX as u64 {
                return Err(
                    reject(text3("extract_function: '", key, "' is out of range").as_str()),
                );
            }
            Ok((n - 1) as u32)
        },
    }
}

/// The request that the parameters make.
pub open spec fn extract_ask(params: Json) -> Result<ExtractAsk, RefusalModel> {
    match (
        needed(params, "extract_function"@, "file"@),
        needed(params, "extract_function"@, "name"@),
        line_param(params, "start_line"@),
        line_param(params, "end_line"@),
    ) {
        (Err(e), _, _, _) => Err(e),
        (_, Err(e), _, _) => Err(e),
        (_, _, Err(e), _) => Err(e),
        (_, _, _, Err(e)) => Err(e),
        (Ok(file), Ok(name), Ok(start_line), Ok(end_line)) => if start_line >= end_line {
            Err(
                invalid(
                    "extract_function: start_line ("@ + decimal(start_line as nat)
                        + ") must be less than end_line ("@ + decimal(end_line as nat) + ")"@,
                ),
            )
        } else {
            Ok(ExtractAsk { file, name, start_line, end_line })
        },
    }
}

/// The request that the parameters make.
pub fn read_extract_request(params: &Json) -> (r: Result<ExtractRequest<'_>, Refusal>)
    ensures
        match (r, extract_ask(*params)) {
            (Ok(a), Ok(b)) => a.deep_view() == b,
            (Err(e), Err(m)) => e.deep_view() == m,
            _ => false,
        },
{
    let file = match need(params, "extract_function", "file") {
        Ok(s) => s,
        Err(e) => {
            return Err(e);
        },
    };
    let name = match need(params, "extract_function", "name") {
        Ok(s) => s,
        Err(e) => {
            return Err(e);
        },
    };
    let start_line = match read_line_param(params, "start_line") {
        Ok(n) => n,
        Err(e) => {
            return Err(e);
        },
    };
    let end_line = match read_line_param(params, "end_line") {
        Ok(n) => n,
        Err(e) => {
            return Err(e);
        },
    };
    if start_line >= end_line {
        return Err(
            reject(
                text5(
                    "extract_function: start_line (",
                    decimal_text(start_line as u64).as_str(),
                    ") must be less than end_line (",
                    decimal_text(end_line as u64).as_str(),
                    ")",
                ).as_str(),
            ),
        );
    }
    Ok(ExtractRequest { file, name, start_line, end_line })
}

/// The language and the text of the file to work on.
pub open spec fn extract_source(file: Seq<char>, t: Target) -> Result<
    (LangId, Seq<char>),
    RefusalModel,
> {
    if !t.exists {
        Err(refused("file_not_found"@, "extract_function: file not found: "@ + file))
    } else {
        match path_lang(file) {
            None => Err(
                refused("unsupported_language"@, "extract_function: unsupported file type"@),
            ),
            Some(lang) => if !lang.script() && lang != LangId::Python {
                Err(
                    refused(
                        "unsupported_language"@,
                        "extract_function: only TypeScript/JavaScript/Python files are supported, got "@
                            + lang.label(),
                    ),
                )
            } else {
                match content_model(t) {
                    Ok(s) => Ok((lang, s)),
                    Err(e) => Err(
                        refused("file_not_found"@, "extract_function: "@ + file + ": "@ + e),
                    ),
                }
            },
        }
    }
}

fn read_extract_source<'a>(file: &str, target: &'a Target) -> (r: Result<
    (LangId, &'a str),
    Refusal,
>)
    ensures
        match (r, extract_source(file@, *target)) {
            (Ok(a), Ok(b)) => a.0 == b.0 && a.1@ == b.1,
            (Err(e), Err(m)) => e.deep_view() == m,
            _ => false,
        },
{
    if !target.exists {
        return Err(refuse("file_not_found", text2("extract_function: file not found: ", file)));
    }
    let lang = match detect_language(file) {
        Some(l) => l,
        None => {
            return Err(
                refuse("unsupported_language", owned("extract_function: unsupported file type")),
            );
        },
    };
    if !lang.is_script() && lang != LangId::Python {
        return Err(
            refuse(
                "unsupported_language",
                text2(
                    "extract_function: only TypeScript/JavaScript/Python files are supported, got ",
                    lang.name(),
                ),
            ),
        );
    }
    match &target.content {
        Ok(s) => Ok((lang, s.as_str())),
        Err(e) => Err(
            refuse("file_not_found", text4("extract_function: ", file, ": ", e.as_str())),
        ),
    }
}

/// The kinds of nodes that enclose lines as a function does.
pub open spec fn function_kinds(lang: LangId) -> Seq<Seq<char>> {
    if lang.script() {
        seq![
            "function_declaration"@,
            "method_definition"@,
            "arrow_function"@,
            "lexical_declaration"@,
        ]
    } else if lang == LangId::Python {
        seq!["function_definition"@]
    } else {
        Seq::empty()
    }
}

/// Whether a node holds an offset.
pub open spec fn holds(t: Tree, at: int) -> bool {
    t.start <= at < t.end
}

/// The deepest node of one of some kinds that holds an offset.
pub open spec fn deepest(t: Tree, at: int, kinds: Seq<Seq<char>>) -> Option<Tree>
    decreases t, 0int,
{
    match deepest_among(t.children, t.children.len() as int, at, kinds) {
        Some(d) => Some(d),
        None => if kinds.contains(t.kind) && holds(t, at) {
            Some(t)
        } else {
            None
        },
    }
}

/// The deepest node below the last of the first `n` nodes of `list` that holds the offset
/// and has one.
pub open spec fn deepest_among(list: Seq<Tree>, n: int, at: int, kinds: Seq<Seq<char>>) -> Option<
    Tree,
>
    decreases list, n,
{
    if n <= 0 || n > list.len() {
        None
    } else if holds(list[n - 1], at) && deepest(list[n - 1], at, kinds) is Some {
        deepest(list[n - 1], at, kinds)
    } else {
        deepest_among(list, n - 1, at, kinds)
    }
}

fn find_deepest_ancestor<'a>(node: &'a SyntaxNode, at: usize, kinds: &Vec<&'static str>) -> (r:
    Option<&'a SyntaxNode>)
    ensures
        opt_tree(r) == deepest(node@, at as int, strs(kinds@)),
    decreases node,
{
    broadcast use lemma_children;

    let ghost t = node@;
    let ghost ks = strs(kinds@);
    let mut n: usize = node.children.len();
    while n > 0
        invariant
            n <= node.children.len(),
            t == node@,
            ks == strs(kinds@),
            t.children == trees(node.children@),
            deepest_among(t.children, t.children.len() as int, at as int, ks) == deepest_among(
                t.children,
                n as int,
                at as int,
                ks,
            ),
        decreases n,
    {
        let child = &node.children[n - 1];
        assert(t.children[n - 1] == child@);
        if child.start_byte <= at && at < child.end_byte {
            match find_deepest_ancestor(child, at, kinds) {
                Some(d) => {
                    return Some(d);
                },
                None => {},
            }
        }
        n = n - 1;
    }
    if contains_str(kinds, node.kind.as_str()) && node.start_byte <= at && at < node.end_byte {
        Some(node)
    } else {
        None
    }
}

/// The function that encloses an offset.
pub fn find_enclosing_function_node<'a>(root: &'a SyntaxNode, at: usize, lang: LangId) -> (r:
    Option<&'a SyntaxNode>)
    ensures
        opt_tree(r) == deepest(root@, at as int, function_kinds(lang)),
{
    let kinds: Vec<&'static str> = if lang.is_script() {
        vec![
            "function_declaration",
            "method_definition",
            "arrow_function",
            "lexical_declaration",
        ]
    } else if lang == LangId::Python {
        vec!["function_definition"]
    } else {
        Vec::new()
    };
    assert(strs(kinds@) =~= function_kinds(lang));
    find_deepest_ancestor(root, at, &kinds)
}

/// The white space at the start of a line, counted from zero; none where there is no such
/// line.
pub open spec fn line_indent(source: Seq<char>, line: int) -> Seq<char> {
    if 0 <= line < lines_of(source).len() {
        leading_space(lines_of(source)[line])
    } else {
        Seq::empty()
    }
}

/// The white space at the start of a line.
pub fn get_line_indent(source: &str, line: usize) -> (r: String)
    ensures
        r@ == line_indent(source@, line as int),
{
    let all = lines(source);
    assert(texts(all@).len() == all@.len());
    if line < all.len() {
        assert(texts(all@)[line as int] == all@[line as int]@);
        indentation(all[line].as_str())
    } else {
        String::new()
    }
}

/// Where lines stand, and what they are moved with.
pub struct ExtractionPlan {
    pub name: String,
    pub lang: LangId,
    /// The bytes of the lines.
    pub start_byte: usize,
    pub end_byte: usize,
    /// Where the new function is put: before the function that encloses the lines, or
    /// where they stand.
    pub insert_at: usize,
    /// Where the enclosing function ends.
    pub enclosing_end: Option<usize>,
    /// The indentation of the enclosing function and of the lines.
    pub base_indent: String,
    pub range_indent: String,
    /// The lines, without the line feeds at their end.
    pub body: String,
}

/// The model of an `ExtractionPlan`.
pub ghost struct Plan {
    pub name: Seq<char>,
    pub lang: LangId,
    pub start: int,
    pub end: int,
    pub insert_at: int,
    pub enclosing_end: Option<int>,
    pub base_indent: Seq<char>,
    pub range_indent: Seq<char>,
    pub body: Seq<char>,
}

impl DeepView for ExtractionPlan {
    type V = Plan;

    open spec fn deep_view(&self) -> Plan {
        Plan {
            name: self.name@,
            lang: self.lang,
            start: self.start_byte as int,
            end: self.end_byte as int,
            insert_at: self.insert_at as int,
            enclosing_end: match self.enclosing_end {
                Some(n) => Some(n as int),
                None => None,
            },
            base_indent: self.base_indent@,
            range_indent: self.range_indent@,
            body: self.body@,
        }
    }
}

/// How the lines of a request are moved in a file with a syntax tree.
pub open spec fn plan_in(ask: ExtractAsk, source: Seq<char>, lang: LangId, root: Tree) -> Result<
    Plan,
    RefusalModel,
> {
    let b = bytes(source);
    let start = line_offset(b, 0, ask.start_line as nat);
    let end = line_offset(b, 0, ask.end_line as nat);
    if start >= b.len() {
        Err(
            invalid(
                "extract_function: start_line "@ + decimal(ask.start_line as nat)
                    + " is beyond end of file"@,
            ),
        )
    } else {
        let function = deepest(root, start, function_kinds(lang));
        Ok(
            Plan {
                name: ask.name,
                lang,
                start,
                end,
                insert_at: match function {
                    Some(f) => f.start,
                    None => start,
                },
                enclosing_end: match function {
                    Some(f) => Some(f.end),
                    None => None,
                },
                base_indent: match function {
                    Some(f) => line_indent(source, f.row),
                    None => Seq::empty(),
                },
                range_indent: line_indent(source, ask.start_line as int),
                body: without_trailing(text_between(source, start, end), '\n'),
            },
        )
    }
}

/// How the lines of a request are moved in a file with a syntax tree.
pub fn plan_extraction(
    ask: &ExtractRequest<'_>,
    source: &str,
    lang: LangId,
    root: &SyntaxNode,
) -> (r: Result<ExtractionPlan, Refusal>)
    requires
        ask.start_line < ask.end_line,
    ensures
        verdict(r) == plan_in(ask.deep_view(), source@, lang, root@),
{
    let start = line_col_to_byte(source, ask.start_line, 0);
    let end = line_col_to_byte(source, ask.end_line, 0);
    proof {
        lemma_first_column(bytes(source@), ask.start_line as nat);
        lemma_first_column(bytes(source@), ask.end_line as nat);
        lemma_line_range(source@, ask.start_line as nat, ask.end_line as nat);
    }
    if start >= source.as_bytes().len() {
        return Err(
            reject(
                text3(
                    "extract_function: start_line ",
                    decimal_text(ask.start_line as u64).as_str(),
                    " is beyond end of file",
                ).as_str(),
            ),
        );
    }
    let function = find_enclosing_function_node(root, start, lang);
    let (insert_at, enclosing_end, base_indent) = match function {
        Some(f) => (
            f.start_byte,
            Some(f.end_byte),
            get_line_indent(source, f.start_row as usize),
        ),
        None => (start, None, String::new()),
    };
    let body = chars_of(text_range(source, start, end));
    Ok(
        ExtractionPlan {
            name: owned(ask.name),
            lang,
            start_byte: start,
            end_byte: end,
            insert_at,
            enclosing_end,
            base_indent,
            range_indent: get_line_indent(source, ask.start_line as usize),
            body: string_of(strip_trailing(body.as_slice(), '\n')),
        },
    )
}

/// How the lines of a request are moved. A text that has no syntax tree is refused.
pub open spec fn extraction_plan(params: Json, t: Target) -> Result<Plan, RefusalModel> {
    match extract_ask(params) {
        Err(e) => Err(e),
        Ok(ask) => match extract_source(ask.file, t) {
            Err(e) => Err(e),
            Ok(found) => match syntax_of(found.1, found.0) {
                None => Err(
                    refused("parse_error"@, "extract_function: failed to parse file"@),
                ),
                Some(root) => plan_in(ask, found.1, found.0, root),
            },
        },
    }
}

/// How the lines of a request are moved.
pub fn handle_extract_function(params: &Json, target: &Target) -> (r: Result<
    ExtractionPlan,
    Refusal,
>)
    ensures
        verdict(r) == extraction_plan(*params, *target),
{
    let ask = match read_extract_request(params) {
        Ok(a) => a,
        Err(e) => {
            return Err(e);
        },
    };
    let (lang, source) = match read_extract_source(ask.file, target) {
        Ok(p) => p,
        Err(e) => {
            return Err(e);
        },
    };
    match parse(source, lang) {
        None => Err(refuse("parse_error", owned("extract_function: failed to parse file"))),
        Some(root) => plan_extraction(&ask, source, lang, &root),
    }
}

/// What a function that is moved out gives back.
#[derive(Clone, Copy, Debug, PartialEq, Eq, Structural)]
pub enum ReturnKind {
    Expression,
    Variable,
    Void,
}

impl ReturnKind {
    /// The name of what is given back.
    pub open spec fn named(self) -> Seq<char> {
        match self {
            ReturnKind::Expression => "expression"@,
            ReturnKind::Variable => "variable"@,
            ReturnKind::Void => "void"@,
        }
    }

    /// The name of what is given back.
    pub fn name(self) -> (r: &'static str)
        ensures
            r@ == self.named(),
    {
        match self {
            ReturnKind::Expression => "expression",
            ReturnKind::Variable => "variable",
            ReturnKind::Void => "void",
        }
    }
}

/// What analysing the lines gave: whether they speak of the object that they run in, what
/// they need, what they give back, and the texts of the new function and of its call.
pub struct Extraction {
    pub has_this_or_self: bool,
    pub parameters: Vec<String>,
    pub return_kind: ReturnKind,
    pub function: String,
    pub call_site: String,
}

/// Bytes of a text, the last excluded.
#[derive(Clone, Copy, Debug, PartialEq, Eq, Structural)]
pub struct ByteRange {
    pub start: usize,
    pub end: usize,
}

/// A file with lines moved into a function.
pub struct Extracted {
    pub parameters: Vec<String>,
    pub return_type: &'static str,
    pub new_source: String,
    /// Where the lines stood in the old text.
    pub extracted_range: ByteRange,
    /// Where the call stands in the new text.
    pub call_site_range: ByteRange,
    /// What the backup before the edit is called.
    pub description: String,
}

/// The source with a call in the place of lines, and the function and a blank line put in at
/// an offset before them.
pub open spec fn moved(
    source: Seq<char>,
    insert_at: int,
    start: int,
    end: int,
    function: Seq<char>,
    call_site: Seq<char>,
) -> Result<Seq<char>, Fault> {
    match replaced(source, start, end, call_site + "\n"@) {
        Err(f) => Err(f),
        Ok(called) => replaced(called, insert_at, insert_at, function + "\n\n"@),
    }
}

/// Where the call stands in the new text: behind what was put in before it.
pub open spec fn call_start(start: int, function: Seq<char>) -> int {
    start + bytes(function + "\n\n"@).len()
}

/// The source with a call in the place of lines, and the function put in before them. Offsets
/// that split a character are refused.
pub fn build_new_source(
    source: &str,
    insert_at: usize,
    start: usize,
    end: usize,
    function: &str,
    call_site: &str,
) -> (r: Result<String, Refusal>)
    ensures
        match (
            r,
            moved(
                source@,
                insert_at as int,
                start as int,
                end as int,
                function@,
                call_site@,
            ),
        ) {
            (Ok(s), Ok(t)) => s@ == t,
            (Err(e), Err(f)) => e.deep_view() == RefusalModel::Error(f),
            _ => false,
        },
{
    let called = match replace_byte_range(source, start, end, text2(call_site, "\n").as_str()) {
        Ok(s) => s,
        Err(e) => {
            return Err(Refusal::Error(e));
        },
    };
    match replace_byte_range(
        called.as_str(),
        insert_at,
        insert_at,
        text2(function, "\n\n").as_str(),
    ) {
        Ok(s) => Ok(s),
        Err(e) => Err(Refusal::Error(e)),
    }
}

/// The word for the object that a function runs in.
pub open spec fn receiver_word(lang: LangId) -> Seq<char> {
    if lang == LangId::Python {
        "self"@
    } else {
        "this"@
    }
}

/// The file with the lines of a plan moved as an analysis says. Lines that speak of the
/// object that they run in are not moved.
pub fn apply_extraction(source: &str, plan: &ExtractionPlan, found: Extraction) -> (r: Result<
    Extracted,
    Refusal,
>)
    ensures
        if found.has_this_or_self {
            let word = receiver_word(plan.lang);
            r is Err && (r->Err_0).deep_view() == refused(
                "this_reference_in_range"@,
                "extract_function: selected range contains '"@ + word
                    + "' reference. Consider extracting as a method instead, or move the "@ + word
                    + " usage outside the extracted range."@,
            )
        } else {
            match moved(
                source@,
                plan.insert_at as int,
                plan.start_byte as int,
                plan.end_byte as int,
                found.function@,
                found.call_site@,
            ) {
                Err(f) => r is Err && (r->Err_0).deep_view() == RefusalModel::Error(f),
                Ok(text) => r is Ok && (r->Ok_0).new_source@ == text && (r->Ok_0).parameters
                    == found.parameters && (r->Ok_0).return_type@ == found.return_kind.named()
                    && (r->Ok_0).description@ == "extract_function: "@ + plan.name@
                    && (r->Ok_0).extracted_range == (ByteRange {
                    start: plan.start_byte,
                    end: plan.end_byte,
                }) && (r->Ok_0).call_site_range.start == call_start(
                    plan.start_byte as int,
                    found.function@,
                ) && (r->Ok_0).call_site_range.end == call_start(
                    plan.start_byte as int,
                    found.function@,
                ) + bytes(found.call_site@).len(),
            }
        },
{
    if found.has_this_or_self {
        let word = if plan.lang == LangId::Python {
            "self"
        } else {
            "this"
        };
        return Err(
            refuse(
                "this_reference_in_range",
                text5(
                    "extract_function: selected range contains '",
                    word,
                    "' reference. Consider extracting as a method instead, or move the ",
                    word,
                    " usage outside the extracted range.",
                ),
            ),
        );
    }
    match build_new_source(
        source,
        plan.insert_at,
        plan.start_byte,
        plan.end_byte,
        found.function.as_str(),
        found.call_site.as_str(),
    ) {
        Err(e) => Err(e),
        Ok(new_source) => {
            let total: usize = new_source.as_str().as_bytes().len();
            let before: usize = text2(found.function.as_str(), "\n\n").as_str().as_bytes().len();
            let call: usize = found.call_site.as_str().as_bytes().len();
            proof {
                lemma_call_fits(
                    source@,
                    plan.insert_at as int,
                    plan.start_byte as int,
                    plan.end_byte as int,
                    found.function@,
                    found.call_site@,
                );
                assert(total == bytes(new_source@).len());
            }
            let start: usize = plan.start_byte + before;
            Ok(
                Extracted {
                    parameters: found.parameters,
                    return_type: found.return_kind.name(),
                    new_source,
                    extracted_range: ByteRange { start: plan.start_byte, end: plan.end_byte },
                    call_site_range: ByteRange { start, end: start + call },
                    description: text2("extract_function: ", plan.name.as_str()),
                },
            )
        },
    }
}

proof fn lemma_call_fits(
    source: Seq<char>,
    insert_at: int,
    start: int,
    end: int,
    function: Seq<char>,
    call_site: Seq<char>,
)
    requires
        moved(source, insert_at, start, end, function, call_site) is Ok,
    ensures
        call_start(start, function) + bytes(call_site).len() <= bytes(
            moved(source, insert_at, start, end, function, call_site)->Ok_0,
        ).len(),
{
    let called = replaced(source, start, end, call_site + "\n"@)->Ok_0;
    lemma_replaced_bytes(source, start, end, call_site + "\n"@);
    lemma_replaced_bytes(called, insert_at, insert_at, function + "\n\n"@);
    lemma_bytes_add(call_site, "\n"@);
}

/// The call of a function that was moved out stands where the answer says.
pub proof fn call_stands_in_its_range(
    source: Seq<char>,
    insert_at: int,
    start: int,
    end: int,
    function: Seq<char>,
    call_site: Seq<char>,
)
    requires
        0 <= insert_at <= start,
        moved(source, insert_at, start, end, function, call_site) is Ok,
    ensures
        ({
            let b = bytes(moved(source, insert_at, start, end, function, call_site)->Ok_0);
            let from = call_start(start, function);
            &&& from + bytes(call_site).len() <= b.len()
            &&& b.subrange(from, from + bytes(call_site).len()) == bytes(call_site)
        }),
{
    lemma_call_fits(source, insert_at, start, end, function, call_site);
    extraction_keeps_the_rest(source, insert_at, start, end, function, call_site);
    lemma_bytes_add(call_site, "\n"@);
    let b = bytes(moved(source, insert_at, start, end, function, call_site)->Ok_0);
    let from = call_start(start, function);
    assert(char_range(source, start, end));
    assert(b.subrange(from, from + bytes(call_site).len()) =~= bytes(call_site));
}

/// Moving lines changes nothing but the lines themselves: everything before the new
/// function, between it and its call, and behind the call stays.
pub proof fn extraction_keeps_the_rest(
    source: Seq<char>,
    insert_at: int,
    start: int,
    end: int,
    function: Seq<char>,
    call_site: Seq<char>,
)
    requires
        insert_at <= start,
        moved(source, insert_at, start, end, function, call_site) is Ok,
    ensures
        ({
            let b = bytes(source);
            bytes(moved(source, insert_at, start, end, function, call_site)->Ok_0) == b.subrange(
                0,
                insert_at,
            ) + bytes(function + "\n\n"@) + b.subrange(insert_at, start) + bytes(
                call_site + "\n"@,
            ) + b.subrange(end, b.len() as int)
        }),
{
    let b = bytes(source);
    let called = replaced(source, start, end, call_site + "\n"@)->Ok_0;
    lemma_replaced_bytes(source, start, end, call_site + "\n"@);
    lemma_replaced_bytes(called, insert_at, insert_at, function + "\n\n"@);
    let c = bytes(called);
    assert(c.subrange(0, insert_at) =~= b.subrange(0, insert_at));
    assert(c.subrange(insert_at, c.len() as int) =~= b.subrange(insert_at, start) + bytes(
        call_site + "\n"@,
    ) + b.subrange(end, b.len() as int));
    assert(bytes(moved(source, insert_at, start, end, function, call_site)->Ok_0) =~= b.subrange(
        0,
        insert_at,
    ) + bytes(function + "\n\n"@) + b.subrange(insert_at, start) + bytes(call_site + "\n"@)
        + b.subrange(end, b.len() as int));
}

/// The function that encloses an offset holds it, so a new function that is put before it
/// comes before the lines.
pub proof fn enclosing_function_holds_the_lines(t: Tree, at: int, kinds: Seq<Seq<char>>)
    ensures
        match deepest(t, at, kinds) {
            Some(d) => holds(d, at) && kinds.contains(d.kind),
            None => true,
        },
    decreases t, 0int,
{
    lemma_deepest_among_holds(t.children, t.children.len() as int, at, kinds);
}

proof fn lemma_deepest_among_holds(list: Seq<Tree>, n: int, at: int, kinds: Seq<Seq<char>>)
    ensures
        match deepest_among(list, n, at, kinds) {
            Some(d) => holds(d, at) && kinds.contains(d.kind),
            None => true,
        },
    decreases list, n,
{
    if 0 < n <= list.len() {
        enclosing_function_holds_the_lines(list[n - 1], at, kinds);
        lemma_deepest_among_holds(list, n - 1, at, kinds);
    }
}

proof fn lemma_deepest_stands(t: Tree, at: int, kinds: Seq<Seq<char>>)
    ensures
        match deepest(t, at, kinds) {
            Some(d) => stands_in(t, d) && kinds.contains(d.kind) && d.start <= at < d.end,
            None => true,
        },
    decreases t, 0int,
{
    lemma_deepest_among_stands(t.children, t.children.len() as int, at, kinds);
    match deepest_among(t.children, t.children.len() as int, at, kinds) {
        Some(d) => {
            let i = choose|i: int|
                0 <= i < t.children.len() && stands_in(#[trigger] t.children[i], d);
            assert(stands_in(t.children[i], d));
        },
        None => {},
    }
}

proof fn lemma_deepest_among_stands(list: Seq<Tree>, n: int, at: int, kinds: Seq<Seq<char>>)
    requires
        n <= list.len(),
    ensures
        match deepest_among(list, n, at, kinds) {
            Some(d) => kinds.contains(d.kind) && d.start <= at < d.end && exists|i: int|
                0 <= i < n && stands_in(#[trigger] list[i], d),
            None => true,
        },
    decreases list, n,
{
    if 0 < n <= list.len() {
        lemma_deepest_stands(list[n - 1], at, kinds);
        lemma_deepest_among_stands(list, n - 1, at, kinds);
    }
}

/// Whether a node is the innermost one of some kinds that holds an offset: none of these kinds
/// below it does.
pub open spec fn innermost(t: Tree, n: Tree, at: int, kinds: Seq<Seq<char>>) -> bool {
    &&& stands_in(t, n)
    &&& kinds.contains(n.kind)
    &&& n.start <= at < n.end
    &&& forall|i: int, m: Tree|
        0 <= i < n.children.len() && #[trigger] stands_in(n.children[i], m) ==> !(kinds.contains(
            m.kind,
        ) && m.start <= at < m.end)
}

proof fn lemma_innermost_is_deepest(t: Tree, n: Tree, at: int, kinds: Seq<Seq<char>>)
    requires
        well_nested(t),
        innermost(t, n, at, kinds),
    ensures
        deepest(t, at, kinds) == Some(n),
    decreases t, 0int,
{
    if exists|i: int| 0 <= i < t.children.len() && stands_in(#[trigger] t.children[i], n) {
        let i = choose|i: int| 0 <= i < t.children.len() && stands_in(#[trigger] t.children[i], n);
        lemma_stands_within(t.children[i], n);
        lemma_innermost_is_deepest(t.children[i], n, at, kinds);
        lemma_only_child_that_holds(t, i, t.children.len() as int, at, kinds);
    } else {
        lemma_deepest_among_stands(t.children, t.children.len() as int, at, kinds);
        match deepest_among(t.children, t.children.len() as int, at, kinds) {
            Some(d) => {
                let i = choose|i: int|
                    0 <= i < t.children.len() && stands_in(#[trigger] t.children[i], d);
                assert(stands_in(n.children[i], d));
            },
            None => {},
        }
    }
}

proof fn lemma_only_child_that_holds(t: Tree, i: int, n: int, at: int, kinds: Seq<Seq<char>>)
    requires
        well_nested(t),
        0 <= i < n <= t.children.len(),
        t.children[i].start <= at < t.children[i].end,
        deepest(t.children[i], at, kinds) is Some,
    ensures
        deepest_among(t.children, n, at, kinds) == deepest(t.children[i], at, kinds),
    decreases n,
{
    if i < n - 1 {
        assert(t.children[i].end <= t.children[n - 1].start);
        lemma_only_child_that_holds(t, i, n - 1, at, kinds);
    }
}

/// Whether a request for a move is complete: it names a file and a function, and lines, counted
/// from one, of which the first comes before the last.
pub open spec fn complete_move(params: Json, file: Seq<char>, name: Seq<char>, first: u64, last: u64) -> bool {
    &&& params.text_field("file"@) == Some(file)
    &&& params.text_field("name"@) == Some(name)
    &&& params.unsigned_field("start_line"@) == Some(first)
    &&& params.unsigned_field("end_line"@) == Some(last)
    &&& 1 <= first < last <= u32::MAX
}

/// Whether a kind is one of those of the functions of a language: in Python definitions of
/// functions, and in TypeScript and JavaScript declarations, methods, arrow functions, and the
/// declarations that hold these.
pub open spec fn function_kind(lang: LangId, kind: Seq<char>) -> bool {
    if lang == LangId::Python {
        kind == "function_definition"@
    } else {
        kind == "function_declaration"@ || kind == "method_definition"@ || kind
            == "arrow_function"@ || kind == "lexical_declaration"@
    }
}

proof fn lemma_function_kinds(lang: LangId)
    requires
        lang == LangId::Python || lang == LangId::TypeScript || lang == LangId::Tsx || lang
            == LangId::JavaScript,
    ensures
        forall|kind: Seq<char>| #[trigger] function_kinds(lang).contains(kind) <==> function_kind(
            lang,
            kind,
        ),
{
    let ks = function_kinds(lang);
    if lang == LangId::Python {
        assert(ks[0] == "function_definition"@);
    } else {
        assert(ks[0] == "function_declaration"@ && ks[1] == "method_definition"@ && ks[2]
            == "arrow_function"@ && ks[3] == "lexical_declaration"@);
    }
}

/// The lines of a request are those from the first up to the last, which stays where it is: the
/// bytes from where the first starts to where the last does. The text that is moved is these
/// lines without the line feeds at their end.
pub proof fn moved_lines_are_those_asked_for(
    params: Json,
    t: Target,
    file: Seq<char>,
    name: Seq<char>,
    first: u64,
    last: u64,
    lang: LangId,
    root: Tree,
)
    requires
        complete_move(params, file, name, first, last),
        t.exists,
        t.content is Ok,
        path_lang(file) == Some(lang),
        lang == LangId::Python || lang == LangId::TypeScript || lang == LangId::Tsx || lang
            == LangId::JavaScript,
        syntax_of((t.content->Ok_0)@, lang) == Some(root),
    ensures
        ({
            let s = (t.content->Ok_0)@;
            let b = bytes(s);
            let from = line_offset(b, 0, (first - 1) as nat);
            let to = line_offset(b, 0, (last - 1) as nat);
            let plan = extraction_plan(params, t);
            &&& plan is Ok <==> from < b.len()
            &&& plan is Ok ==> {
                let p = plan->Ok_0;
                &&& p.name == name
                &&& p.lang == lang
                &&& p.start == from
                &&& p.end == to
                &&& bytes(p.body).is_prefix_of(b.subrange(from, to))
                &&& forall|k: int|
                    from + bytes(p.body).len() <= k < to ==> #[trigger] b[k] == 10
                &&& p.body.len() > 0 ==> p.body.last() != '\n'
            }
        }),
{
    let s = (t.content->Ok_0)@;
    let b = bytes(s);
    let from = line_offset(b, 0, (first - 1) as nat);
    let to = line_offset(b, 0, (last - 1) as nat);
    lemma_line_range(s, (first - 1) as nat, (last - 1) as nat);
    if from < b.len() {
        let text = text_between(s, from, to);
        lemma_between_bytes(s, from, to);
        lemma_without_line_feeds(text);
        let kept = without_trailing(text, '\n');
        let tail = text.skip(kept.len() as int);
        assert(text =~= kept + tail);
        lemma_bytes_add(kept, tail);
        lemma_line_feeds_bytes(tail);
        let whole = b.subrange(from, to);
        assert(whole == bytes(kept) + bytes(tail));
        assert(bytes(kept) =~= whole.take(bytes(kept).len() as int));
        assert forall|k: int| from + bytes(kept).len() <= k < to implies #[trigger] b[k] == 10 by {
            assert(b[k] == whole[k - from]);
            assert(whole[k - from] == bytes(tail)[k - from - bytes(kept).len()]);
        }
    }
}

proof fn lemma_between_bytes(s: Seq<char>, from: int, to: int)
    requires
        char_range(s, from, to),
    ensures
        bytes(text_between(s, from, to)) == bytes(s).subrange(from, to),
{
    let b = bytes(s);
    vstd::utf8::encode_utf8_valid_utf8(s);
    vstd::utf8::valid_utf8_split(b, to);
    let head = b.subrange(0, to);
    vstd::utf8::is_char_boundary_start_end_of_seq(head);
    if from < to {
        vstd::utf8::is_char_boundary_iff_not_is_continuation_byte(b, from);
        vstd::utf8::is_char_boundary_iff_not_is_continuation_byte(head, from);
    }
    vstd::utf8::valid_utf8_split(head, from);
    assert(head.subrange(from, to) =~= b.subrange(from, to));
    vstd::utf8::decode_utf8_encode_utf8(b.subrange(from, to));
}

proof fn lemma_without_line_feeds(s: Seq<char>)
    ensures
        ({
            let kept = without_trailing(s, '\n');
            &&& kept.is_prefix_of(s)
            &&& kept.len() > 0 ==> kept.last() != '\n'
            &&& forall|k: int| kept.len() <= k < s.len() ==> #[trigger] s[k] == '\n'
        }),
    decreases s.len(),
{
    if s.len() > 0 && s.last() == '\n' {
        lemma_without_line_feeds(s.drop_last());
        let kept = without_trailing(s.drop_last(), '\n');
        assert(kept =~= s.drop_last().take(kept.len() as int));
        assert(kept =~= s.take(kept.len() as int));
        assert forall|k: int| kept.len() <= k < s.len() implies #[trigger] s[k] == '\n' by {
            if k < s.len() - 1 {
                assert(s.drop_last()[k] == '\n');
            }
        }
    } else {
        assert(s =~= s.take(s.len() as int));
    }
}

proof fn lemma_line_feeds_bytes(s: Seq<char>)
    requires
        forall|k: int| 0 <= k < s.len() ==> #[trigger] s[k] == '\n',
    ensures
        forall|k: int| 0 <= k < bytes(s).len() ==> #[trigger] bytes(s)[k] == 10,
{
    assert(vstd::utf8::is_ascii_chars(s));
    vstd::utf8::is_ascii_chars_encode_utf8(s);
}

/// The new function is put before the function that the lines stand in, the innermost one where
/// there are several, and takes over its indentation. Where the lines stand in no function it is
/// put before the lines.
pub proof fn new_function_comes_before_the_enclosing_one(
    params: Json,
    t: Target,
    file: Seq<char>,
    name: Seq<char>,
    first: u64,
    last: u64,
    lang: LangId,
    root: Tree,
    n: Tree,
)
    requires
        complete_move(params, file, name, first, last),
        t.exists,
        t.content is Ok,
        path_lang(file) == Some(lang),
        lang == LangId::Python || lang == LangId::TypeScript || lang == LangId::Tsx || lang
            == LangId::JavaScript,
        syntax_of((t.content->Ok_0)@, lang) == Some(root),
        well_nested(root),
    ensures
        ({
            let s = (t.content->Ok_0)@;
            let from = line_offset(bytes(s), 0, (first - 1) as nat);
            let plan = extraction_plan(params, t);
            &&& plan is Ok && stands_in(root, n) && function_kind(lang, n.kind) && n.start <= from
                < n.end && (forall|i: int, m: Tree|
                0 <= i < n.children.len() && #[trigger] stands_in(n.children[i], m) ==> !(
                function_kind(lang, m.kind) && m.start <= from < m.end)) ==> {
                &&& plan->Ok_0.insert_at == n.start
                &&& plan->Ok_0.enclosing_end == Some(n.end)
                &&& 0 <= n.row < lines_of(s).len() ==> plan->Ok_0.base_indent == leading_space(
                    lines_of(s)[n.row],
                )
            }
            &&& plan is Ok && (forall|m: Tree| #[trigger]
                stands_in(root, m) ==> !(function_kind(lang, m.kind) && m.start <= from < m.end))
                ==> {
                &&& plan->Ok_0.insert_at == from
                &&& plan->Ok_0.enclosing_end is None
                &&& plan->Ok_0.base_indent.len() == 0
            }
            &&& plan is Ok && first - 1 < lines_of(s).len() ==> plan->Ok_0.range_indent
                == leading_space(lines_of(s)[first - 1])
        }),
{
    let s = (t.content->Ok_0)@;
    let from = line_offset(bytes(s), 0, (first - 1) as nat);
    let ks = function_kinds(lang);
    lemma_function_kinds(lang);
    lemma_deepest_stands(root, from, ks);
    if stands_in(root, n) && function_kind(lang, n.kind) && n.start <= from < n.end && (forall|
        i: int,
        m: Tree,
    |
        0 <= i < n.children.len() && #[trigger] stands_in(n.children[i], m) ==> !(function_kind(
            lang,
            m.kind,
        ) && m.start <= from < m.end)) {
        assert(innermost(root, n, from, ks));
        lemma_innermost_is_deepest(root, n, from, ks);
    }
}

/// In Python the new function is put right before the innermost definition of a function that
/// holds the first of the lines, be it in a class or not.
pub proof fn python_functions_are_put_before_the_one_around_the_lines(
    params: Json,
    t: Target,
    file: Seq<char>,
    name: Seq<char>,
    first: u64,
    last: u64,
    root: Tree,
    n: Tree,
)
    requires
        complete_move(params, file, name, first, last),
        t.exists,
        t.content is Ok,
        path_lang(file) == Some(LangId::Python),
        syntax_of((t.content->Ok_0)@, LangId::Python) == Some(root),
        well_nested(root),
        stands_in(root, n),
        n.kind == "function_definition"@,
        n.start <= line_offset(bytes((t.content->Ok_0)@), 0, (first - 1) as nat) < n.end,
        line_offset(bytes((t.content->Ok_0)@), 0, (first - 1) as nat) < bytes(
            (t.content->Ok_0)@,
        ).len(),
        forall|i: int, m: Tree|
            0 <= i < n.children.len() && #[trigger] stands_in(n.children[i], m) && m.kind
                == "function_definition"@ ==> !(m.start <= line_offset(
                bytes((t.content->Ok_0)@),
                0,
                (first - 1) as nat,
            ) < m.end),
    ensures
        extraction_plan(params, t) is Ok,
        extraction_plan(params, t)->Ok_0.insert_at == n.start,
        extraction_plan(params, t)->Ok_0.enclosing_end == Some(n.end),
{
    moved_lines_are_those_asked_for(params, t, file, name, first, last, LangId::Python, root);
    new_function_comes_before_the_enclosing_one(
        params,
        t,
        file,
        name,
        first,
        last,
        LangId::Python,
        root,
        n,
    );
}

/// The object that a function runs in is `self` in Python and `this` elsewhere.
pub proof fn objects_are_named_by_language(lang: LangId)
    ensures
        lang is Python ==> receiver_word(lang) == "self"@,
        !(lang is Python) ==> receiver_word(lang) == "this"@,
{
}

} // verus!
