//! Searches for the places that match a structural pattern.
use vstd::prelude::*;

use crate::ast_grep_lang::{lang_named, AstGrepLang};
use crate::commands::ast_scope::{excludes, is_exclusion};
use crate::commands::refusal::{
    invalid, need, needed, refuse, refused, reject, verdict, Refusal, RefusalModel,
};
use crate::json::{some_texts, texts_among, Json};
use crate::lang::lowercase;
use crate::models::{group_models, models};
use crate::paths::{extension, extension_of};
use crate::structural::{
    captured, check_pattern, find_captures, find_hits, pattern_captures, pattern_fault,
    pattern_hits, Capture, Captured, Captures, Grammar, GrepMatch, Hit,
};
use crate::text::{
    chars_of, contains_str, lines, lines_of, owned, same, string_of, strip_leading, strs, text2,
    text4, texts, without_leading,
};

verus! {

/// The language that a command of structural patterns needs.
pub open spec fn needed_lang(params: Json, command: Seq<char>) -> Result<AstGrepLang, RefusalModel> {
    match needed(params, command, "lang"@) {
        Err(e) => Err(e),
        Ok(name) => match lang_named(lowercase(name)) {
            Some(lang) => Ok(lang),
            None => Err(
                invalid(
                    command + ": unsupported language '"@ + name
                        + "'. Supported: typescript, tsx, javascript, python, rust, go, c, cpp, zig, csharp"@,
                ),
            ),
        },
    }
}

/// The language that a command of structural patterns needs.
pub fn need_lang(params: &Json, command: &str) -> (r: Result<AstGrepLang, Refusal>)
    ensures
        match (r, needed_lang(*params, command@)) {
            (Ok(a), Ok(b)) => a == b,
            (Err(e), Err(m)) => e.deep_view() == m,
            _ => false,
        },
{
    let name = match need(params, command, "lang") {
        Ok(s) => s,
        Err(e) => {
            return Err(e);
        },
    };
    match AstGrepLang::from_str(name) {
        Some(lang) => Ok(lang),
        None => Err(
            reject(
                text4(
                    command,
                    ": unsupported language '",
                    name,
                    "'. Supported: typescript, tsx, javascript, python, rust, go, c, cpp, zig, csharp",
                ).as_str(),
            ),
        ),
    }
}

/// The texts of a list that a request can give.
pub open spec fn listed(params: Json, key: Seq<char>) -> Seq<Seq<char>> {
    match params.items_field(key) {
        Some(items) => texts_among(items),
        None => Seq::empty(),
    }
}

/// The texts of a list that a request can give.
pub fn list_of(params: &Json, key: &str) -> (r: Vec<String>)
    ensures
        texts(r@) == listed(*params, key@),
{
    match params.get_items(key) {
        Some(items) => some_texts(items),
        None => {
            let r: Vec<String> = Vec::new();
            assert(texts(r@) =~= Seq::<Seq<char>>::empty());
            r
        },
    }
}

/// A request to search for a pattern.
pub struct SearchRequest {
    pub pattern: String,
    pub lang: AstGrepLang,
    pub paths: Vec<String>,
    pub globs: Vec<String>,
    pub context: usize,
}

/// The model of a `SearchRequest`.
pub ghost struct SearchAsk {
    pub pattern: Seq<char>,
    pub lang: AstGrepLang,
    pub paths: Seq<Seq<char>>,
    pub globs: Seq<Seq<char>>,
    pub context: usize,
}

impl DeepView for SearchRequest {
    type V = SearchAsk;

    open spec fn deep_view(&self) -> SearchAsk {
        SearchAsk {
            pattern: self.pattern@,
            lang: self.lang,
            paths: texts(self.paths@),
            globs: texts(self.globs@),
            context: self.context,
        }
    }
}

/// The request that the parameters make.
pub open spec fn search_ask(params: Json) -> Result<SearchAsk, RefusalModel> {
    match (needed(params, "ast_search"@, "pattern"@), needed_lang(params, "ast_search"@)) {
        (Err(e), _) => Err(e),
        (_, Err(e)) => Err(e),
        (Ok(pattern), Ok(lang)) => Ok(
            SearchAsk {
                pattern,
                lang,
                paths: listed(params, "paths"@),
                globs: listed(params, "globs"@),
                context: match params.unsigned_field("context"@) {
                    Some(n) => n as usize,
                    None => 0,
                },
            },
        ),
    }
}

/// The request that the parameters make.
pub fn read_search_request(params: &Json) -> (r: Result<SearchRequest, Refusal>)
    ensures
        verdict(r) == search_ask(*params),
{
    let pattern = match need(params, "ast_search", "pattern") {
        Ok(s) => s,
        Err(e) => {
            return Err(e);
        },
    };
    let lang = match need_lang(params, "ast_search") {
        Ok(l) => l,
        Err(e) => {
            return Err(e);
        },
    };
    let context: usize = match params.get_unsigned("context") {
        Some(n) => n as usize,
        None => 0,
    };
    Ok(
        SearchRequest {
            pattern: owned(pattern),
            lang,
            paths: list_of(params, "paths"),
            globs: list_of(params, "globs"),
            context,
        },
    )
}

/// A line around a match.
pub struct ContextLine {
    pub line: usize,
    pub text: String,
    pub is_match: bool,
}

/// The model of a `ContextLine`.
pub ghost struct Around {
    pub line: int,
    pub text: Seq<char>,
    pub is_match: bool,
}

impl DeepView for ContextLine {
    type V = Around;

    open spec fn deep_view(&self) -> Around {
        Around { line: self.line as int, text: self.text@, is_match: self.is_match }
    }
}

/// A place that matches a pattern.
pub struct AstMatch {
    pub file: String,
    pub line: usize,
    pub column: usize,
    pub text: String,
    pub meta_variables: Captures,
    pub context: Option<Vec<ContextLine>>,
}

/// The model of an `AstMatch`.
pub ghost struct Found {
    pub file: Seq<char>,
    pub line: int,
    pub column: int,
    pub text: Seq<char>,
    pub variables: Map<Seq<char>, Captured>,
    pub context: Option<Seq<Around>>,
}

impl DeepView for AstMatch {
    type V = Found;

    open spec fn deep_view(&self) -> Found {
        Found {
            file: self.file@,
            line: self.line as int,
            column: self.column as int,
            text: self.text@,
            variables: self.meta_variables.deep_view(),
            context: match self.context {
                Some(list) => Some(models(list@)),
                None => None,
            },
        }
    }
}

/// Variables by their names with the sign in front of them.
pub open spec fn signed_names(variables: Map<Seq<char>, Captured>) -> Map<Seq<char>, Captured> {
    Map::new(
        |k: Seq<char>| k.len() > 0 && k[0] == '$' && variables.dom().contains(k.skip(1)),
        |k: Seq<char>| variables[k.skip(1)],
    )
}

/// A line number, counted from one, for a row that is counted from zero.
pub open spec fn row_number(row: int) -> int {
    if row >= usize::MAX {
        usize::MAX as int
    } else {
        row + 1
    }
}

/// The first of `n` lines before a match.
pub open spec fn context_start(hit: Hit, n: int) -> int {
    if hit.line < n {
        0
    } else {
        hit.line - n
    }
}

/// The end of `n` lines behind a match.
pub open spec fn context_end(count: int, hit: Hit, n: int) -> int {
    if hit.end_line + n + 1 < count {
        hit.end_line + n + 1
    } else {
        count
    }
}

/// The lines of a match with `n` lines on both sides.
pub open spec fn context_of(all: Seq<Seq<char>>, hit: Hit, n: int) -> Seq<Around> {
    let start = context_start(hit, n);
    let end = context_end(all.len() as int, hit, n);
    Seq::new(
        if start < end {
            (end - start) as nat
        } else {
            0
        },
        |k: int|
            Around {
                line: start + k + 1,
                text: all[start + k],
                is_match: hit.line <= start + k <= hit.end_line,
            },
    )
}

/// What is told of a match.
pub open spec fn found(
    file: Seq<char>,
    all: Seq<Seq<char>>,
    hit: Hit,
    variables: Map<Seq<char>, Captured>,
    n: int,
) -> Found {
    Found {
        file,
        line: row_number(hit.line),
        column: hit.column,
        text: hit.text,
        variables: signed_names(variables),
        context: if n > 0 {
            Some(context_of(all, hit, n))
        } else {
            None
        },
    }
}

/// What is told of the matches of a file.
pub open spec fn described(
    file: Seq<char>,
    source: Seq<char>,
    hits: Seq<Hit>,
    variables: Seq<Map<Seq<char>, Captured>>,
    n: int,
) -> Seq<Found> {
    Seq::new(hits.len(), |i: int| found(file, lines_of(source), hits[i], variables[i], n))
}

fn sign_names(captures: &Captures) -> (r: Captures)
    ensures
        r.deep_view() == signed_names(captures.deep_view()),
{
    let ghost all = captures.list@;
    let mut out: Vec<Capture> = Vec::new();
    let mut i: usize = 0;
    proof {
        assert(captured(out@) =~= signed_names(captured(all.take(0))));
    }
    while i < captures.list.len()
        invariant
            i <= captures.list.len(),
            all == captures.list@,
            captured(out@) == signed_names(captured(all.take(i as int))),
        decreases captures.list.len() - i,
    {
        let c = &captures.list[i];
        let name = text2("$", c.name.as_str());
        let mut list: Vec<String> = Vec::new();
        let mut k: usize = 0;
        while k < c.texts.len()
            invariant
                k <= c.texts.len(),
                models(list@) == models(c.texts@).take(k as int),
            decreases c.texts.len() - k,
        {
            broadcast use group_models;

            let ghost before = models(list@);
            let t = owned(c.texts[k].as_str());
            let ghost m = t@;
            list.push(t);
            assert(models(list@) == before.push(m));
            assert(models(c.texts@).take(k + 1) =~= models(c.texts@).take(k as int).push(
                models(c.texts@)[k as int],
            ));
            k = k + 1;
        }
        assert(models(c.texts@).take(k as int) =~= models(c.texts@));
        let ghost before = out@;
        let ghost value = Captured { many: c.many, texts: models(c.texts@) };
        proof {
            reveal_strlit("$");
            assert(all.take(i + 1).drop_last() =~= all.take(i as int));
            assert(all.take(i + 1).last() == all[i as int]);
            assert(name@ =~= seq!['$'] + c.name@);
            assert(name@.skip(1) =~= c.name@);
        }
        let ghost entry = name@;
        out.push(Capture { name, many: c.many, texts: list });
        proof {
            assert(out@.drop_last() =~= before);
            let m = captured(all.take(i as int));
            if c.many || c.texts@.len() > 0 {
                assert(list@.len() == c.texts@.len()) by {
                    assert(models(list@).len() == models(c.texts@).len());
                }
                assert(captured(out@) == signed_names(m).insert(entry, value));
                assert(signed_names(m.insert(c.name@, value)) =~= signed_names(m).insert(
                    entry,
                    value,
                )) by {
                    assert forall|k: Seq<char>| k.len() > 0 && k[0] == '$' && k.skip(1)
                        == c.name@ implies k == entry by {
                        assert(k =~= seq!['$'] + k.skip(1));
                    }
                }
            } else {
                assert(list@.len() == 0) by {
                    assert(models(list@).len() == models(c.texts@).len());
                }
            }
        }
        i = i + 1;
    }
    assert(all.take(i as int) =~= all);
    Captures { list: out }
}

fn context_lines(all: &Vec<String>, hit: &GrepMatch, n: usize) -> (r: Vec<ContextLine>)
    ensures
        models(r@) == context_of(texts(all@), hit.deep_view(), n as int),
{
    broadcast use group_models;

    let ghost want = context_of(texts(all@), hit.deep_view(), n as int);
    let start: usize = if hit.line < n {
        0
    } else {
        hit.line - n
    };
    let reach: usize = hit.end_line.saturating_add(n).saturating_add(1);
    let end: usize = if reach < all.len() {
        reach
    } else {
        all.len()
    };
    let mut out: Vec<ContextLine> = Vec::new();
    let mut i: usize = start;
    assert(texts(all@).len() == all@.len());
    assert(end == context_end(all@.len() as int, hit.deep_view(), n as int));
    while i < end
        invariant
            start <= i,
            start < end ==> i <= end,
            start >= end ==> i == start,
            end <= all.len(),
            start == context_start(hit.deep_view(), n as int),
            end == context_end(all@.len() as int, hit.deep_view(), n as int),
            want == context_of(texts(all@), hit.deep_view(), n as int),
            models(out@) == want.take(i - start),
        decreases end - i,
    {
        let line = ContextLine {
            line: i + 1,
            text: owned(all[i].as_str()),
            is_match: i >= hit.line && i <= hit.end_line,
        };
        let ghost before = models(out@);
        let ghost m = line.deep_view();
        out.push(line);
        assert(models(out@) == before.push(m));
        assert(texts(all@)[i as int] == all@[i as int]@);
        assert(want.take(i + 1 - start) =~= want.take(i - start).push(m));
        i = i + 1;
    }
    assert(want.take(i - start) =~= want);
    out
}

/// What is told of the matches of a file. `hits` are the matches, and `captures` is what the
/// variables of the pattern stand for in each of them.
pub fn describe_matches(
    file: &str,
    source: &str,
    hits: &Vec<GrepMatch>,
    captures: &Vec<Captures>,
    context: usize,
) -> (r: Vec<AstMatch>)
    requires
        captures@.len() == hits@.len(),
    ensures
        models(r@) == described(file@, source@, models(hits@), models(captures@), context as int),
{
    broadcast use group_models;

    let all = lines(source);
    let ghost want = described(file@, source@, models(hits@), models(captures@), context as int);
    let mut out: Vec<AstMatch> = Vec::new();
    let mut i: usize = 0;
    while i < hits.len()
        invariant
            i <= hits.len(),
            captures@.len() == hits@.len(),
            texts(all@) == lines_of(source@),
            want == described(file@, source@, models(hits@), models(captures@), context as int),
            models(out@) == want.take(i as int),
        decreases hits.len() - i,
    {
        let hit = &hits[i];
        assert(models(hits@)[i as int] == hit.deep_view());
        assert(models(captures@)[i as int] == captures@[i as int].deep_view());
        let around = if context > 0 {
            Some(context_lines(&all, hit, context))
        } else {
            None
        };
        let m = AstMatch {
            file: owned(file),
            line: hit.line.saturating_add(1),
            column: hit.column,
            text: owned(hit.text.as_str()),
            meta_variables: sign_names(&captures[i]),
            context: around,
        };
        let ghost before = models(out@);
        let ghost model = m.deep_view();
        assert(model == want[i as int]);
        out.push(m);
        assert(models(out@) == before.push(model));
        assert(want.take(i + 1) =~= want.take(i as int).push(model));
        i = i + 1;
    }
    assert(want.take(i as int) =~= want);
    out
}

/// What is told of the matches of a pattern in a file.
pub open spec fn matches_in(
    file: Seq<char>,
    source: Seq<char>,
    pattern: Seq<char>,
    lang: AstGrepLang,
    n: int,
) -> Seq<Found> {
    let ready = lang.processed(pattern);
    if pattern_fault(ready, lang) is Some {
        Seq::empty()
    } else {
        described(
            file,
            source,
            pattern_hits(source, ready, lang),
            pattern_captures(source, ready, lang),
            n,
        )
    }
}

/// What is told of the matches of a pattern in a file; nothing where the pattern is none.
pub fn search_file(
    source: &str,
    file_path: &str,
    pattern: &str,
    lang: &AstGrepLang,
    context_lines: usize,
) -> (r: Vec<AstMatch>)
    ensures
        models(r@) == matches_in(file_path@, source@, pattern@, *lang, context_lines as int),
{
    broadcast use group_models;

    let ready = lang.pre_process_pattern(pattern);
    if check_pattern(ready.as_str(), Grammar { lang: *lang }).is_some() {
        return Vec::new();
    }
    let hits = find_hits(source, ready.as_str(), Grammar { lang: *lang });
    let captures = find_captures(source, ready.as_str(), Grammar { lang: *lang });
    assert(models(hits@).len() == hits@.len());
    describe_matches(file_path, source, &hits, &captures, context_lines)
}

/// A file that is searched; one that cannot be read has no content.
pub struct SourceFile {
    pub path: String,
    pub content: Option<String>,
}

/// The model of a `SourceFile`.
pub ghost struct Source {
    pub path: Seq<char>,
    pub content: Option<Seq<char>>,
}

impl DeepView for SourceFile {
    type V = Source;

    open spec fn deep_view(&self) -> Source {
        Source { path: self.path@, content: self.content.deep_view() }
    }
}

/// The matches in one of the files that are searched.
pub open spec fn source_matches(f: Source, ask: SearchAsk) -> Seq<Found> {
    match f.content {
        Some(source) => matches_in(f.path, source, ask.pattern, ask.lang, ask.context as int),
        None => Seq::empty(),
    }
}

/// The matches in files, file by file.
pub open spec fn all_matches(files: Seq<Source>, ask: SearchAsk) -> Seq<Found>
    decreases files.len(),
{
    if files.len() == 0 {
        Seq::empty()
    } else {
        all_matches(files.drop_last(), ask) + source_matches(files.last(), ask)
    }
}

/// How many files have a match.
pub open spec fn matched_files(files: Seq<Source>, ask: SearchAsk) -> int
    decreases files.len(),
{
    if files.len() == 0 {
        0
    } else {
        matched_files(files.drop_last(), ask) + (if source_matches(files.last(), ask).len() > 0 {
            1int
        } else {
            0int
        })
    }
}

/// What a search found.
pub struct AstSearchReport {
    pub matches: Vec<AstMatch>,
    pub total_matches: usize,
    pub files_with_matches: usize,
    pub files_searched: usize,
}

/// The model of an `AstSearchReport`.
pub ghost struct SearchReport {
    pub matches: Seq<Found>,
    pub total_matches: int,
    pub files_with_matches: int,
    pub files_searched: int,
}

impl DeepView for AstSearchReport {
    type V = SearchReport;

    open spec fn deep_view(&self) -> SearchReport {
        SearchReport {
            matches: models(self.matches@),
            total_matches: self.total_matches as int,
            files_with_matches: self.files_with_matches as int,
            files_searched: self.files_searched as int,
        }
    }
}

/// What a request to search is answered.
pub open spec fn search_answer(params: Json, files: Seq<Source>) -> Result<
    SearchReport,
    RefusalModel,
> {
    match search_ask(params) {
        Err(e) => Err(e),
        Ok(ask) => match pattern_fault(ask.lang.processed(ask.pattern), ask.lang) {
            Some(why) => Err(refused("invalid_pattern"@, "invalid AST pattern: "@ + why)),
            None => Ok(
                SearchReport {
                    matches: all_matches(files, ask),
                    total_matches: all_matches(files, ask).len() as int,
                    files_with_matches: matched_files(files, ask),
                    files_searched: files.len() as int,
                },
            ),
        },
    }
}

fn add_matches(out: &mut Vec<AstMatch>, more: Vec<AstMatch>)
    ensures
        models(final(out)@) == models(old(out)@) + models(more@),
{
    broadcast use group_models;

    let mut rest = more;
    out.append(&mut rest);
}

/// Answers a request to search for a pattern in `files`.
pub fn handle_ast_search(params: &Json, files: &Vec<SourceFile>) -> (r: Result<
    AstSearchReport,
    Refusal,
>)
    ensures
        verdict(r) == search_answer(*params, models(files@)),
{
    broadcast use group_models;

    let req = match read_search_request(params) {
        Ok(req) => req,
        Err(e) => {
            return Err(e);
        },
    };
    let ghost ask = req.deep_view();
    let ready = req.lang.pre_process_pattern(req.pattern.as_str());
    match check_pattern(ready.as_str(), Grammar { lang: req.lang }) {
        Some(why) => {
            return Err(refuse("invalid_pattern", text2("invalid AST pattern: ", why.as_str())));
        },
        None => {},
    }
    let ghost all = models(files@);
    let mut matches: Vec<AstMatch> = Vec::new();
    let mut files_with_matches: usize = 0;
    let mut i: usize = 0;
    while i < files.len()
        invariant
            i <= files.len(),
            all == models(files@),
            ask == req.deep_view(),
            models(matches@) == all_matches(all.take(i as int), ask),
            files_with_matches == matched_files(all.take(i as int), ask),
            files_with_matches <= i,
        decreases files.len() - i,
    {
        assert(all.take(i + 1).drop_last() =~= all.take(i as int));
        assert(all[i as int] == files@[i as int].deep_view());
        match &files[i].content {
            Some(source) => {
                let found = search_file(
                    source.as_str(),
                    files[i].path.as_str(),
                    req.pattern.as_str(),
                    &req.lang,
                    req.context,
                );
                assert(models(found@) == source_matches(all[i as int], ask));
                if found.len() > 0 {
                    files_with_matches = files_with_matches + 1;
                }
                add_matches(&mut matches, found);
            },
            None => {},
        }
        i = i + 1;
    }
    assert(all.take(i as int) =~= all);
    let total_matches = matches.len();
    Ok(AstSearchReport { matches, total_matches, files_with_matches, files_searched: files.len() })
}

/// The first `n` filters that include files.
pub open spec fn including(globs: Seq<Seq<char>>, n: int) -> Seq<Seq<char>>
    decreases n,
{
    if n <= 0 || n > globs.len() {
        Seq::empty()
    } else if excludes(globs[n - 1]) {
        including(globs, n - 1)
    } else {
        including(globs, n - 1).push(globs[n - 1])
    }
}

/// The first `n` filters that exclude files, each with a single sign in front.
pub open spec fn excluding(globs: Seq<Seq<char>>, n: int) -> Seq<Seq<char>>
    decreases n,
{
    if n <= 0 || n > globs.len() {
        Seq::empty()
    } else if excludes(globs[n - 1]) {
        excluding(globs, n - 1).push("!"@ + without_leading(globs[n - 1], '!'))
    } else {
        excluding(globs, n - 1)
    }
}

/// The filters of a walk: those that include files before those that exclude them.
pub fn walk_rules(globs: &Vec<String>) -> (r: Vec<String>)
    ensures
        texts(r@) == including(texts(globs@), globs@.len() as int) + excluding(
            texts(globs@),
            globs@.len() as int,
        ),
{
    let ghost all = texts(globs@);
    let mut out: Vec<String> = Vec::new();
    let mut i: usize = 0;
    assert(texts(out@) =~= Seq::<Seq<char>>::empty());
    while i < globs.len()
        invariant
            i <= globs.len(),
            all == texts(globs@),
            texts(out@) == including(all, i as int),
        decreases globs.len() - i,
    {
        assert(all[i as int] == globs@[i as int]@);
        if !is_exclusion(globs[i].as_str()) {
            let ghost before = texts(out@);
            out.push(owned(globs[i].as_str()));
            assert(texts(out@) =~= before.push(all[i as int]));
        }
        i = i + 1;
    }
    let ghost first = texts(out@);
    let mut k: usize = 0;
    assert(first + excluding(all, 0) =~= first);
    while k < globs.len()
        invariant
            k <= globs.len(),
            all == texts(globs@),
            texts(out@) == first + excluding(all, k as int),
        decreases globs.len() - k,
    {
        assert(all[k as int] == globs@[k as int]@);
        if is_exclusion(globs[k].as_str()) {
            let ghost before = texts(out@);
            let c = chars_of(globs[k].as_str());
            let rest = string_of(strip_leading(c.as_slice(), '!'));
            let rule = text2("!", rest.as_str());
            let ghost m = rule@;
            out.push(rule);
            assert(texts(out@) =~= before.push(m));
            assert(texts(out@) =~= first + excluding(all, k + 1));
        }
        k = k + 1;
    }
    out
}

/// Whether a path has one of some extensions.
pub open spec fn has_extension(path: Seq<char>, extensions: Seq<Seq<char>>) -> bool {
    match extension_of(path) {
        Some(ext) => extensions.contains(ext),
        None => false,
    }
}

/// The paths among the first `n` that have one of some extensions.
pub open spec fn with_extensions(paths: Seq<Seq<char>>, extensions: Seq<Seq<char>>, n: int) -> Seq<
    Seq<char>,
>
    decreases n,
{
    if n <= 0 || n > paths.len() {
        Seq::empty()
    } else if has_extension(paths[n - 1], extensions) {
        with_extensions(paths, extensions, n - 1).push(paths[n - 1])
    } else {
        with_extensions(paths, extensions, n - 1)
    }
}

/// The files among those that a walk came to whose extension is one of `extensions`.
pub fn collect_files(walked: &Vec<String>, extensions: &Vec<&'static str>) -> (r: Vec<String>)
    ensures
        texts(r@) == with_extensions(
            texts(walked@),
            strs(extensions@),
            walked@.len() as int,
        ),
{
    let ghost all = texts(walked@);
    let ghost exts = strs(extensions@);
    let mut out: Vec<String> = Vec::new();
    let mut i: usize = 0;
    assert(texts(out@) =~= Seq::<Seq<char>>::empty());
    while i < walked.len()
        invariant
            i <= walked.len(),
            all == texts(walked@),
            exts == strs(extensions@),
            texts(out@) == with_extensions(all, exts, i as int),
        decreases walked.len() - i,
    {
        assert(all[i as int] == walked@[i as int]@);
        let kept = match extension(walked[i].as_str()) {
            Some(ext) => contains_str(extensions, ext.as_str()),
            None => false,
        };
        if kept {
            let ghost before = texts(out@);
            out.push(owned(walked[i].as_str()));
            assert(texts(out@) =~= before.push(all[i as int]));
        }
        i = i + 1;
    }
    out
}

/// The lines around a match are lines of the file, in order and next to each other, and those
/// of the match itself are marked.
pub proof fn context_is_around_the_match(all: Seq<Seq<char>>, hit: Hit, n: int)
    requires
        0 <= hit.line <= hit.end_line < all.len(),
        n > 0,
    ensures
        ({
            let c = context_of(all, hit, n);
            &&& forall|k: int|
                0 <= k < c.len() ==> 1 <= (#[trigger] c[k]).line <= all.len() && c[k].text
                    == all[c[k].line - 1] && c[k].line == c[0].line + k
            &&& forall|row: int|
                hit.line <= row <= hit.end_line ==> (#[trigger] c[row - context_start(hit, n)]).is_match
                    && c[row - context_start(hit, n)].line == row + 1
        }),
{
}

/// A match is told by its file, its line and its column, the line counted from one, and its text;
/// each of its variables by its name behind a dollar sign. The lines around it are as many as were
/// asked for on either side, fewer at the ends of the file, and are told only where any were.
pub proof fn matches_are_told_where_they_stand(
    file: Seq<char>,
    source: Seq<char>,
    hits: Seq<Hit>,
    variables: Seq<Map<Seq<char>, Captured>>,
    n: int,
    i: int,
    name: Seq<char>,
)
    requires
        0 <= i < hits.len(),
        0 <= hits[i].line <= hits[i].end_line < lines_of(source).len(),
        hits[i].line < usize::MAX,
    ensures
        ({
            let all = lines_of(source);
            let hit = hits[i];
            let list = described(file, source, hits, variables, n);
            let m = list[i];
            &&& list.len() == hits.len()
            &&& m.file == file
            &&& m.line == hit.line + 1
            &&& m.column == hit.column
            &&& m.text == hit.text
            &&& variables[i].dom().contains(name) ==> m.variables.dom().contains(seq!['$'] + name)
                && m.variables[seq!['$'] + name] == variables[i][name]
            &&& m.variables.dom().contains(name) ==> name.len() > 0 && name[0] == '$'
                && variables[i].dom().contains(name.skip(1))
            &&& n <= 0 ==> m.context is None
            &&& n > 0 ==> m.context is Some && {
                let c = m.context->0;
                let first = if hit.line >= n {
                    hit.line - n
                } else {
                    0
                };
                let last = if hit.end_line + n < all.len() {
                    hit.end_line + n
                } else {
                    all.len() - 1
                };
                &&& c.len() == last - first + 1
                &&& forall|k: int|
                    0 <= k < c.len() ==> (#[trigger] c[k]).line == first + k + 1 && c[k].text
                        == all[first + k] && (c[k].is_match <==> hit.line <= first + k
                        <= hit.end_line)
            }
        }),
{
    assert((seq!['$'] + name).skip(1) =~= name);
}

/// Files are searched one after another: a file that cannot be read adds nothing, and one with a
/// match adds its matches behind those of the files before it and counts once.
pub proof fn files_are_searched_in_turn(files: Seq<Source>, f: Source, ask: SearchAsk)
    ensures
        f.content is None ==> all_matches(files.push(f), ask) == all_matches(files, ask)
            && matched_files(files.push(f), ask) == matched_files(files, ask),
        f.content is Some ==> {
            let more = matches_in(f.path, f.content->0, ask.pattern, ask.lang, ask.context as int);
            &&& all_matches(files.push(f), ask) == all_matches(files, ask) + more
            &&& more.len() > 0 ==> matched_files(files.push(f), ask) == matched_files(files, ask)
                + 1
            &&& more.len() == 0 ==> matched_files(files.push(f), ask) == matched_files(files, ask)
        },
{
    assert(files.push(f).drop_last() =~= files);
    assert(all_matches(files, ask) + Seq::<Found>::empty() =~= all_matches(files, ask));
}

/// A filter with an exclamation mark in front excludes, under a single mark; any other is one that
/// a file has to meet.
pub proof fn filters_are_told_apart(globs: Seq<Seq<char>>, g: Seq<char>)
    ensures
        ({
            let n = globs.len() as int;
            let all = globs.push(g);
            let marked = g.len() > 0 && g[0] == '!';
            &&& marked ==> including(all, n + 1) == including(globs, n) && excluding(all, n + 1)
                == excluding(globs, n).push("!"@ + without_leading(g, '!'))
            &&& !marked ==> including(all, n + 1) == including(globs, n).push(g) && excluding(
                all,
                n + 1,
            ) == excluding(globs, n)
        }),
{
    lemma_filters_before(globs, g, globs.len() as int);
}

proof fn lemma_filters_before(globs: Seq<Seq<char>>, g: Seq<char>, n: int)
    requires
        0 <= n <= globs.len(),
    ensures
        including(globs.push(g), n) == including(globs, n),
        excluding(globs.push(g), n) == excluding(globs, n),
    decreases n,
{
    if n > 0 {
        lemma_filters_before(globs, g, n - 1);
        assert(globs.push(g)[n - 1] == globs[n - 1]);
    }
}

/// A request to search names a pattern and a language, whatever the case of its letters, and is
/// refused without them; the rest is taken as it is given, with no lines around a match where none
/// are asked for.
pub proof fn search_requests_are_taken_as_written(params: Json)
    ensures
        match search_ask(params) {
            Ok(ask) => params.text_field("pattern"@) == Some(ask.pattern) && params.text_field(
                "lang"@,
            ) is Some && lang_named(lowercase(params.text_field("lang"@)->0)) == Some(ask.lang)
                && (params.unsigned_field("context"@) is None ==> ask.context == 0) && (
            params.unsigned_field("context"@) is Some && params.unsigned_field("context"@)->0
                <= usize::MAX ==> ask.context == params.unsigned_field("context"@)->0) && (
            params.items_field("paths"@) is Some ==> ask.paths == texts_among(
                params.items_field("paths"@)->0,
            )) && (params.items_field("globs"@) is Some ==> ask.globs == texts_among(
                params.items_field("globs"@)->0,
            )) && (params.items_field("paths"@) is None ==> ask.paths.len() == 0) && (
            params.items_field("globs"@) is None ==> ask.globs.len() == 0),
            Err(_) => params.text_field("pattern"@) is None || params.text_field("lang"@) is None
                || lang_named(lowercase(params.text_field("lang"@)->0)) is None,
        },
{
}

/// A file is searched where its extension is one of the language's.
pub proof fn files_are_chosen_by_extension(
    paths: Seq<Seq<char>>,
    extensions: Seq<Seq<char>>,
    n: int,
)
    requires
        0 < n <= paths.len(),
    ensures
        ({
            let ext = extension_of(paths[n - 1]);
            let fits = ext is Some && extensions.contains(ext->0);
            &&& fits ==> with_extensions(paths, extensions, n) == with_extensions(
                paths,
                extensions,
                n - 1,
            ).push(paths[n - 1])
            &&& !fits ==> with_extensions(paths, extensions, n) == with_extensions(
                paths,
                extensions,
                n - 1,
            )
        }),
{
}

/// A search is answered with all matches in its files and their number, and with how many files were
/// searched and have one; a pattern that is none refuses it.
pub proof fn searches_are_answered_with_their_counts(params: Json, files: Seq<Source>)
    ensures
        match search_answer(params, files) {
            Ok(r) => search_ask(params) is Ok && ({
                let ask = search_ask(params)->Ok_0;
                &&& pattern_fault(ask.lang.processed(ask.pattern), ask.lang) is None
                &&& r.matches == all_matches(files, ask)
                &&& r.total_matches == r.matches.len()
                &&& r.files_with_matches == matched_files(files, ask)
                &&& r.files_searched == files.len()
            }),
            Err(_) => search_ask(params) is Err || ({
                let ask = search_ask(params)->Ok_0;
                pattern_fault(ask.lang.processed(ask.pattern), ask.lang) is Some
            }),
        },
{
}

} // verus!
