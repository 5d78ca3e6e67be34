//! What the call graph learns from one file.
use vstd::prelude::*;

use crate::callgraph::model::{
    copy_opt, CallList, CallSite, FileCallData, FileModel, ImportBlock, ImportModel, MetaModel,
    SiteModel, SymbolMeta,
};
use crate::callgraph::worktree::{Disk, Symbol, SymbolModel, Worktree};
use crate::calls::{call_kinds, call_lines, calls_under, extract_calls_full, full_calls};
use crate::edit::{bytes, line_col_to_byte, position};
use crate::error::{outcome, AftError, Fault};
use crate::lang::{detect_language, path_lang, LangId};
use crate::models::{
    group_models, lemma_table_get_set, lemma_table_get_set_other, models, set_entry, table_get,
    table_set, Entry,
};
use crate::syntax::{line_number, line_of, parse, syntax_of, SyntaxNode, Tree};
use crate::text::{owned, same};

verus! {

/// The calls without those of the symbol to itself, as sites in the bytes of the
/// symbol.
pub open spec fn sites_of(
    calls: Seq<(Seq<char>, Seq<char>, int)>,
    own: Seq<char>,
    lo: int,
    hi: int,
) -> Seq<SiteModel>
    decreases calls.len(),
{
    if calls.len() == 0 {
        Seq::empty()
    } else {
        let rest = sites_of(calls.drop_last(), own, lo, hi);
        let c = calls.last();
        if c.1 == own {
            rest
        } else {
            rest.push(
                SiteModel {
                    callee_name: c.1,
                    full_callee: c.0,
                    line: c.2,
                    byte_start: lo,
                    byte_end: hi,
                },
            )
        }
    }
}

/// The calls in a symbol's body.
pub open spec fn symbol_sites(
    source: Seq<char>,
    root: Tree,
    lang: LangId,
    s: SymbolModel,
) -> Seq<SiteModel> {
    let lo = position(bytes(source), s.start_line, s.start_col);
    let hi = position(bytes(source), s.end_line, s.end_col);
    sites_of(full_calls(calls_under(root, lo, hi, call_kinds(lang))), s.name, lo, hi)
}

/// The calls of every symbol that makes any.
pub open spec fn calls_table(
    source: Seq<char>,
    root: Tree,
    lang: LangId,
    symbols: Seq<SymbolModel>,
) -> Seq<(Seq<char>, Seq<SiteModel>)>
    decreases symbols.len(),
{
    if symbols.len() == 0 {
        Seq::empty()
    } else {
        let rest = calls_table(source, root, lang, symbols.drop_last());
        let s = symbols.last();
        let sites = symbol_sites(source, root, lang, s);
        if sites.len() == 0 {
            rest
        } else {
            table_set(rest, s.name, sites)
        }
    }
}

/// The names of the exported symbols.
pub open spec fn exported_names(symbols: Seq<SymbolModel>) -> Seq<Seq<char>>
    decreases symbols.len(),
{
    if symbols.len() == 0 {
        Seq::empty()
    } else {
        let rest = exported_names(symbols.drop_last());
        if symbols.last().exported {
            rest.push(symbols.last().name)
        } else {
            rest
        }
    }
}

/// What is known of every symbol; of symbols with one name, of the last.
pub open spec fn metadata_table(symbols: Seq<SymbolModel>) -> Seq<(Seq<char>, MetaModel)>
    decreases symbols.len(),
{
    if symbols.len() == 0 {
        Seq::empty()
    } else {
        let s = symbols.last();
        table_set(
            metadata_table(symbols.drop_last()),
            s.name,
            (MetaModel { kind: s.kind, exported: s.exported, signature: s.signature }),
        )
    }
}

/// What the graph keeps of a file with this tree, these symbols and these imports.
pub open spec fn file_model(
    source: Seq<char>,
    root: Tree,
    lang: LangId,
    symbols: Seq<SymbolModel>,
    imports: Seq<ImportModel>,
) -> FileModel {
    FileModel {
        calls: calls_table(source, root, lang, symbols),
        exported: exported_names(symbols),
        metadata: metadata_table(symbols),
        imports,
        lang,
    }
}

fn sites_in(
    calls: Vec<(String, String, u32)>,
    own: &str,
    byte_start: usize,
    byte_end: usize,
) -> (r: Vec<CallSite>)
    ensures
        models(r@) == sites_of(call_lines(calls@), own@, byte_start as int, byte_end as int),
{
    broadcast use group_models;

    let ghost all = call_lines(calls@);
    let mut out: Vec<CallSite> = Vec::new();
    let mut i: usize = 0;
    assert(all.take(0) =~= Seq::empty());
    while i < calls.len()
        invariant
            i <= calls.len(),
            all == call_lines(calls@),
            models(out@) == sites_of(
                all.take(i as int),
                own@,
                byte_start as int,
                byte_end as int,
            ),
        decreases calls.len() - i,
    {
        let c = &calls[i];
        proof {
            assert(all.take(i + 1).drop_last() =~= all.take(i as int));
            assert(all.take(i + 1).last() == (c.0@, c.1@, c.2 as int));
        }
        let ghost before = models(out@);
        if !same(c.1.as_str(), own) {
            let site = CallSite {
                callee_name: c.1.clone(),
                full_callee: c.0.clone(),
                line: c.2,
                byte_start,
                byte_end,
            };
            let ghost m = site.deep_view();
            out.push(site);
            assert(models(out@) == before.push(m));
        }
        i = i + 1;
    }
    assert(all.take(calls@.len() as int) =~= all);
    out
}

/// What the graph keeps of a file with this tree, these symbols and these imports.
pub fn call_data(
    source: &str,
    root: &SyntaxNode,
    lang: LangId,
    symbols: &Vec<Symbol>,
    imports: &ImportBlock,
) -> (r: FileCallData)
    ensures
        r.deep_view() == file_model(
            source@,
            root@,
            lang,
            models(symbols@),
            models(imports.imports@),
        ),
{
    broadcast use group_models;

    let ghost all = models(symbols@);
    let mut calls_by_symbol: Vec<Entry<CallList>> = Vec::new();
    let mut exported_symbols: Vec<String> = Vec::new();
    let mut symbol_metadata: Vec<Entry<SymbolMeta>> = Vec::new();
    let mut i: usize = 0;
    assert(all.take(0) =~= Seq::empty());
    while i < symbols.len()
        invariant
            i <= symbols.len(),
            all == models(symbols@),
            models(calls_by_symbol@) == calls_table(source@, root@, lang, all.take(i as int)),
            models(exported_symbols@) == exported_names(all.take(i as int)),
            models(symbol_metadata@) == metadata_table(all.take(i as int)),
        decreases symbols.len() - i,
    {
        let s = &symbols[i];
        proof {
            assert(all.take(i + 1).drop_last() =~= all.take(i as int));
            assert(all.take(i + 1).last() == s.deep_view());
        }
        let byte_start = line_col_to_byte(source, s.start_line, s.start_col);
        let byte_end = line_col_to_byte(source, s.end_line, s.end_col);
        let raw = extract_calls_full(root, byte_start, byte_end, lang);
        let sites = sites_in(raw, s.name.as_str(), byte_start, byte_end);
        if sites.len() > 0 {
            set_entry(&mut calls_by_symbol, s.name.clone(), CallList { sites });
        }
        if s.exported {
            let ghost before = models(exported_symbols@);
            exported_symbols.push(s.name.clone());
            assert(models(exported_symbols@) == before.push(s.name@));
        }
        let meta = SymbolMeta {
            kind: s.kind,
            exported: s.exported,
            signature: copy_opt(&s.signature),
        };
        set_entry(&mut symbol_metadata, s.name.clone(), meta);
        i = i + 1;
    }
    assert(all.take(symbols@.len() as int) =~= all);
    FileCallData {
        calls_by_symbol,
        exported_symbols,
        symbol_metadata,
        import_block: imports.copy(),
        lang,
    }
}

/// What the graph learns from the file at a path, or why it cannot.
pub open spec fn file_data(d: Disk, path: Seq<char>) -> Result<FileModel, Fault> {
    match path_lang(path) {
        None => Err(
            Fault::InvalidRequest { message: "unsupported file for call graph: "@ + path },
        ),
        Some(lang) => match d.content(path) {
            Err(e) => Err(Fault::FileNotFound { path: path + ": "@ + e }),
            Ok(source) => match syntax_of(source, lang) {
                None => Err(Fault::ParseError { message: "parse failed for "@ + path }),
                Some(root) => Ok(
                    file_model(source, root, lang, d.symbols(path), d.imports(path)),
                ),
            },
        },
    }
}

/// What the graph learns from the file at a path, or why it cannot.
pub fn build_file_data(w: &Worktree, path: &str) -> (r: Result<FileCallData, AftError>)
    ensures
        outcome(r) == file_data(w@, path@),
{
    let lang = match detect_language(path) {
        Some(l) => l,
        None => {
            let mut message = "unsupported file for call graph: ".to_owned();
            message.append(path);
            return Err(AftError::InvalidRequest { message });
        },
    };
    let f = match w.file(path) {
        Some(f) => f,
        None => {
            let mut p = owned(path);
            p.append(": ");
            p.append("No such file or directory (os error 2)");
            return Err(AftError::FileNotFound { path: p });
        },
    };
    let source = match &f.content {
        Ok(s) => s,
        Err(e) => {
            let mut p = owned(path);
            p.append(": ");
            p.append(e.as_str());
            return Err(AftError::FileNotFound { path: p });
        },
    };
    match parse(source.as_str(), lang) {
        Some(root) => Ok(call_data(source.as_str(), &root, lang, &f.symbols, &f.imports)),
        None => {
            let mut message = "parse failed for ".to_owned();
            message.append(path);
            Err(AftError::ParseError { message })
        },
    }
}

/// The line, counted from one, and the signature of the first of the symbols from
/// `from` on with a name; line one and none where there is no such symbol.
pub open spec fn symbol_place(symbols: Seq<SymbolModel>, name: Seq<char>, from: int) -> (
    int,
    Option<Seq<char>>,
)
    decreases symbols.len() - from,
{
    if from < 0 || from >= symbols.len() {
        (1, None)
    } else if symbols[from].name == name {
        (line_number(symbols[from].start_line as int), symbols[from].signature)
    } else {
        symbol_place(symbols, name, from + 1)
    }
}

/// The line and the signature of a symbol of the file at a path.
pub fn get_symbol_meta(w: &Worktree, path: &str, name: &str) -> (r: (u32, Option<String>))
    ensures
        (r.0 as int, r.1.deep_view()) == symbol_place(w@.symbols(path@), name@, 0),
{
    let f = match w.file(path) {
        Some(f) => f,
        None => {
            return (1, None);
        },
    };
    let ghost all = models(f.symbols@);
    let mut i: usize = 0;
    while i < f.symbols.len()
        invariant
            i <= f.symbols.len(),
            all == models(f.symbols@),
            all == w@.symbols(path@),
            symbol_place(all, name@, 0) == symbol_place(all, name@, i as int),
        decreases f.symbols.len() - i,
    {
        let s = &f.symbols[i];
        assert(all[i as int] == s.deep_view());
        if same(s.name.as_str(), name) {
            return (line_of(s.start_line), copy_opt(&s.signature));
        }
        i = i + 1;
    }
    (1, None)
}

/// A symbol is where the first of its name in the file is, its line counted from one, and has its
/// signature; one that is not there is at line one and has none.
pub proof fn symbols_are_where_the_first_of_their_name_is(
    symbols: Seq<SymbolModel>,
    name: Seq<char>,
    from: int,
    k: int,
)
    requires
        0 <= from <= k <= symbols.len(),
        forall|i: int| from <= i < k ==> (#[trigger] symbols[i]).name != name,
        k < symbols.len() ==> symbols[k].name == name,
    ensures
        k < symbols.len() && symbols[k].start_line < u32::MAX ==> symbol_place(
            symbols,
            name,
            from,
        ) == (symbols[k].start_line as int + 1, symbols[k].signature),
        k == symbols.len() ==> symbol_place(symbols, name, from) == (1int, None::<Seq<char>>),
    decreases k - from,
{
    if from < k {
        assert(symbols[from].name != name);
        symbols_are_where_the_first_of_their_name_is(symbols, name, from + 1, k);
    }
}

/// The calls of a symbol are those in its body but for those to itself, in order, each with its
/// name, its whole expression and its line.
pub proof fn own_calls_are_left_out(
    calls: Seq<(Seq<char>, Seq<char>, int)>,
    call: (Seq<char>, Seq<char>, int),
    own: Seq<char>,
    lo: int,
    hi: int,
)
    ensures
        ({
            let before = sites_of(calls, own, lo, hi);
            let now = sites_of(calls.push(call), own, lo, hi);
            &&& call.1 == own ==> now == before
            &&& call.1 != own ==> now.len() == before.len() + 1 && now.drop_last() == before
                && now.last().callee_name == call.1 && now.last().full_callee == call.0
                && now.last().line == call.2
        }),
{
    assert(calls.push(call).drop_last() =~= calls);
    let before = sites_of(calls, own, lo, hi);
    let now = sites_of(calls.push(call), own, lo, hi);
    if call.1 != own {
        assert(now.drop_last() =~= before);
    }
}

/// What is known of a file: the names of its exported symbols and no others, and of every symbol
/// its kind, whether it is exported and its signature, of the last where several have one name.
pub proof fn symbols_are_known_by_name(symbols: Seq<SymbolModel>, name: Seq<char>)
    ensures
        exported_names(symbols).contains(name) <==> exists|i: int|
            0 <= i < symbols.len() && (#[trigger] symbols[i]).name == name && symbols[i].exported,
        match table_get(metadata_table(symbols), name) {
            Some(meta) => exists|i: int|
                0 <= i < symbols.len() && (#[trigger] symbols[i]).name == name && meta.kind
                    == symbols[i].kind && meta.exported == symbols[i].exported && meta.signature
                    == symbols[i].signature && forall|k: int|
                    i < k < symbols.len() ==> (#[trigger] symbols[k]).name != name,
            None => forall|i: int| 0 <= i < symbols.len() ==> (#[trigger] symbols[i]).name != name,
        },
    decreases symbols.len(),
{
    if symbols.len() > 0 {
        let less = symbols.drop_last();
        let s = symbols.last();
        let last = symbols.len() - 1;
        symbols_are_known_by_name(less, name);
        let rest = exported_names(less);
        assert(symbols[last] == s);
        assert(forall|i: int| 0 <= i < last ==> less[i] == #[trigger] symbols[i]);
        if s.exported {
            assert(rest.push(s.name).contains(name) <==> rest.contains(name) || s.name == name) by {
                if rest.contains(name) {
                    let i = choose|i: int| 0 <= i < rest.len() && rest[i] == name;
                    assert(rest.push(s.name)[i] == name);
                }
                assert(rest.push(s.name)[rest.len() as int] == s.name);
                if rest.push(s.name).contains(name) && s.name != name {
                    let i = choose|i: int|
                        0 <= i < rest.push(s.name).len() && rest.push(s.name)[i] == name;
                    assert(rest[i] == name);
                }
            }
        }
        if exported_names(symbols).contains(name) {
            if rest.contains(name) {
                let i = choose|i: int|
                    0 <= i < less.len() && (#[trigger] less[i]).name == name && less[i].exported;
                assert(symbols[i].name == name && symbols[i].exported);
            }
        }
        let meta = MetaModel { kind: s.kind, exported: s.exported, signature: s.signature };
        if s.name == name {
            lemma_table_get_set(metadata_table(less), s.name, meta);
        } else {
            lemma_table_get_set_other(metadata_table(less), s.name, meta, name);
            match table_get(metadata_table(less), name) {
                Some(m) => {
                    let i = choose|i: int|
                        0 <= i < less.len() && (#[trigger] less[i]).name == name && m.kind
                            == less[i].kind && m.exported == less[i].exported && m.signature
                            == less[i].signature && forall|k: int|
                            i < k < less.len() ==> (#[trigger] less[k]).name != name;
                    assert(symbols[i].name == name);
                    assert forall|k: int| i < k < symbols.len() implies (
                    #[trigger] symbols[k]).name != name by {
                        if k < last {
                            assert(less[k] == symbols[k]);
                        }
                    }
                },
                None => {
                    assert forall|i: int| 0 <= i < symbols.len() implies (
                    #[trigger] symbols[i]).name != name by {
                        if i < last {
                            assert(less[i] == symbols[i]);
                        }
                    }
                },
            }
        }
    }
}

} // verus!
