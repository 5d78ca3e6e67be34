//! Edits of one symbol of a file: replacing it, deleting it, or inserting next to it.
use vstd::prelude::*;

use crate::commands::refusal::{
    given_text, invalid, need, needed, refuse, refused, reject, verdict, Refusal,
    RefusalModel,
};
use crate::commands::target::{content_model, Target};
use crate::edit::{
    bytes, char_range, lemma_bytes_add, lemma_line_feed_bytes, lemma_replaced_bytes,
    line_col_to_byte, position, replace_byte_range, replaced, replacements_change_their_range,
};
use crate::error::{AftError, Fault};
use crate::json::Json;
use crate::models::{group_models, models};
use crate::symbols::{Range, SymbolKind};
use crate::syntax::{line_number, line_of};
use crate::text::{
    contains_text, find_char_from, join, joined, lemma_char_found, lines, lines_of, owned, same,
    text2, text3, text4, texts,
};

verus! {

/// What is done with a symbol.
#[derive(Clone, Copy, Debug, PartialEq, Eq, Structural)]
pub enum Operation {
    Replace,
    Delete,
    InsertBefore,
    InsertAfter,
}

impl Operation {
    /// The operation's name in a request.
    pub open spec fn named(self) -> Seq<char> {
        match self {
            Operation::Replace => "replace"@,
            Operation::Delete => "delete"@,
            Operation::InsertBefore => "insert_before"@,
            Operation::InsertAfter => "insert_after"@,
        }
    }

    /// The operation's name in a request.
    pub fn name(self) -> (r: &'static str)
        ensures
            r@ == self.named(),
    {
        match self {
            Operation::Replace => "replace",
            Operation::Delete => "delete",
            Operation::InsertBefore => "insert_before",
            Operation::InsertAfter => "insert_after",
        }
    }
}

/// The operation with a name.
pub open spec fn operation_of(name: Seq<char>) -> Option<Operation> {
    if name == "replace"@ {
        Some(Operation::Replace)
    } else if name == "delete"@ {
        Some(Operation::Delete)
    } else if name == "insert_before"@ {
        Some(Operation::InsertBefore)
    } else if name == "insert_after"@ {
        Some(Operation::InsertAfter)
    } else {
        None
    }
}

fn parse_operation(name: &str) -> (r: Option<Operation>)
    ensures
        r == operation_of(name@),
{
    if same(name, "replace") {
        Some(Operation::Replace)
    } else if same(name, "delete") {
        Some(Operation::Delete)
    } else if same(name, "insert_before") {
        Some(Operation::InsertBefore)
    } else if same(name, "insert_after") {
        Some(Operation::InsertAfter)
    } else {
        None
    }
}

/// A request to edit a symbol.
pub struct EditRequest<'a> {
    pub file: &'a str,
    pub symbol: &'a str,
    pub operation: Operation,
    pub content: Option<&'a str>,
    pub scope: Option<&'a str>,
}

/// The model of an `EditRequest`.
pub ghost struct EditAsk {
    pub file: Seq<char>,
    pub symbol: Seq<char>,
    pub operation: Operation,
    pub content: Option<Seq<char>>,
    pub scope: Option<Seq<char>>,
}

impl<'a> DeepView for EditRequest<'a> {
    type V = EditAsk;

    open spec fn deep_view(&self) -> EditAsk {
        EditAsk {
            file: self.file@,
            symbol: self.symbol@,
            operation: self.operation,
            content: given_text(self.content),
            scope: given_text(self.scope),
        }
    }
}

/// The request that the parameters make.
pub open spec fn edit_ask(params: Json) -> Result<EditAsk, RefusalModel> {
    match (
        needed(params, "edit_symbol"@, "file"@),
        needed(params, "edit_symbol"@, "symbol"@),
        needed(params, "edit_symbol"@, "operation"@),
    ) {
        (Err(e), _, _) => Err(e),
        (_, Err(e), _) => Err(e),
        (_, _, Err(e)) => Err(e),
        (Ok(file), Ok(symbol), Ok(name)) => match operation_of(name) {
            None => Err(
                invalid(
                    "edit_symbol: invalid operation '"@ + name
                        + "', expected: replace, delete, insert_before, insert_after"@,
                ),
            ),
            Some(operation) => {
                let content = params.text_field("content"@);
                if operation != Operation::Delete && content is None {
                    Err(
                        invalid(
                            "edit_symbol: 'content' is required for operation '"@ + name + "'"@,
                        ),
                    )
                } else {
                    Ok(
                        EditAsk {
                            file,
                            symbol,
                            operation,
                            content,
                            scope: params.text_field("scope"@),
                        },
                    )
                }
            },
        },
    }
}

/// The request that the parameters make.
pub fn read_edit_request(params: &Json) -> (r: Result<EditRequest<'_>, Refusal>)
    ensures
        match (r, edit_ask(*params)) {
            (Ok(a), Ok(b)) => a.deep_view() == b,
            (Err(e), Err(m)) => e.deep_view() == m,
            _ => false,
        },
{
    let file = match need(params, "edit_symbol", "file") {
        Ok(s) => s,
        Err(e) => {
            return Err(e);
        },
    };
    let symbol = match need(params, "edit_symbol", "symbol") {
        Ok(s) => s,
        Err(e) => {
            return Err(e);
        },
    };
    let name = match need(params, "edit_symbol", "operation") {
        Ok(s) => s,
        Err(e) => {
            return Err(e);
        },
    };
    let operation = match parse_operation(name) {
        Some(op) => op,
        None => {
            return Err(
                reject(
                    text3(
                        "edit_symbol: invalid operation '",
                        name,
                        "', expected: replace, delete, insert_before, insert_after",
                    ).as_str(),
                ),
            );
        },
    };
    let content = params.get_text("content");
    if operation != Operation::Delete && content.is_none() {
        return Err(
            reject(
                text3("edit_symbol: 'content' is required for operation '", name, "'").as_str(),
            ),
        );
    }
    Ok(EditRequest { file, symbol, operation, content, scope: params.get_text("scope") })
}

/// A symbol that a name may mean.
pub struct SymbolMatch {
    pub name: String,
    pub kind: SymbolKind,
    pub range: Range,
    /// The names of the symbols that enclose it, from the outermost on.
    pub scope_chain: Vec<String>,
    pub parent: Option<String>,
}

/// The model of a `SymbolMatch`.
#[verifier::ext_equal]
pub ghost struct Found {
    pub name: Seq<char>,
    pub kind: SymbolKind,
    pub range: Range,
    pub scope_chain: Seq<Seq<char>>,
    pub parent: Option<Seq<char>>,
}

impl DeepView for SymbolMatch {
    type V = Found;

    open spec fn deep_view(&self) -> Found {
        Found {
            name: self.name@,
            kind: self.kind,
            range: self.range,
            scope_chain: models(self.scope_chain@),
            parent: self.parent.deep_view(),
        }
    }
}

/// Whether a symbol stands in a scope: one of those that enclose it, or its parent.
pub open spec fn in_scope(f: Found, scope: Seq<char>) -> bool {
    f.scope_chain.contains(scope) || f.parent == Some(scope)
}

/// Those of `list` that stand in a scope.
pub open spec fn scoped(list: Seq<Found>, scope: Seq<char>) -> Seq<Found>
    decreases list.len(),
{
    if list.len() == 0 {
        Seq::empty()
    } else {
        let rest = scoped(list.drop_last(), scope);
        if in_scope(list.last(), scope) {
            rest.push(list.last())
        } else {
            rest
        }
    }
}

/// What a scope leaves of several symbols with one name. A single symbol is kept whatever
/// the scope is.
pub open spec fn narrowed(list: Seq<Found>, scope: Option<Seq<char>>) -> Seq<Found> {
    match scope {
        Some(s) => if list.len() > 1 {
            scoped(list, s)
        } else {
            list
        },
        None => list,
    }
}

/// What a scope leaves of several symbols with one name.
pub fn narrow_matches(matches: Vec<SymbolMatch>, scope: Option<&str>) -> (r: Vec<SymbolMatch>)
    ensures
        models(r@) == narrowed(models(matches@), given_text(scope)),
{
    broadcast use group_models;

    let scope = match scope {
        Some(s) => s,
        None => {
            return matches;
        },
    };
    if matches.len() <= 1 {
        return matches;
    }
    let ghost all = models(matches@);
    let mut out = matches;
    let mut i: usize = 0;
    let ghost mut k: int = 0;
    assert(scoped(all.take(0), scope@) + all.skip(0) =~= all);
    while i < out.len()
        invariant
            0 <= k <= all.len(),
            i <= out.len(),
            i == scoped(all.take(k), scope@).len(),
            models(out@) == scoped(all.take(k), scope@) + all.skip(k),
        decreases out.len() - i,
    {
        let ghost done = scoped(all.take(k), scope@);
        let ghost before = models(out@);
        assert(before[i as int] == all[k]);
        assert(before[i as int] == out@[i as int].deep_view());
        assert(all.take(k + 1).drop_last() =~= all.take(k));
        assert(models(out@[i as int].scope_chain@) =~= texts(out@[i as int].scope_chain@));
        let parent = match &out[i].parent {
            Some(p) => same(p.as_str(), scope),
            None => false,
        };
        if contains_text(&out[i].scope_chain, scope) || parent {
            assert(done.push(all[k]) + all.skip(k + 1) =~= done + all.skip(k));
            i = i + 1;
        } else {
            let _gone = out.remove(i);
            assert(models(out@) == before.remove(i as int));
            assert(before.remove(i as int) =~= done + all.skip(k + 1));
        }
        proof {
            k = k + 1;
        }
    }
    assert(all.take(k) =~= all);
    assert(scoped(all, scope@) + all.skip(k) =~= scoped(all, scope@));
    out
}

/// One of several symbols that a name may mean, as it is told.
pub struct Candidate {
    pub name: String,
    pub qualified: String,
    pub line: u32,
    pub kind: SymbolKind,
}

/// The model of a `Candidate`.
pub ghost struct Choice {
    pub name: Seq<char>,
    pub qualified: Seq<char>,
    pub line: int,
    pub kind: SymbolKind,
}

impl DeepView for Candidate {
    type V = Choice;

    open spec fn deep_view(&self) -> Choice {
        Choice {
            name: self.name@,
            qualified: self.qualified@,
            line: self.line as int,
            kind: self.kind,
        }
    }
}

/// A symbol as it is told: with the scopes before its name, and its line counted from one.
pub open spec fn choice_of(f: Found) -> Choice {
    Choice {
        name: f.name,
        qualified: if f.scope_chain.len() == 0 {
            f.name
        } else {
            joined(f.scope_chain, "::"@) + "::"@ + f.name
        },
        line: line_number(f.range.start_line as int),
        kind: f.kind,
    }
}

fn candidates(list: &Vec<SymbolMatch>) -> (r: Vec<Candidate>)
    ensures
        models(r@) == models(list@).map_values(|f: Found| choice_of(f)),
{
    broadcast use group_models;

    let ghost all = models(list@);
    let ghost want = all.map_values(|f: Found| choice_of(f));
    let mut out: Vec<Candidate> = Vec::new();
    let mut i: usize = 0;
    while i < list.len()
        invariant
            i <= list.len(),
            all == models(list@),
            want == all.map_values(|f: Found| choice_of(f)),
            models(out@) == want.take(i as int),
        decreases list.len() - i,
    {
        let m = &list[i];
        assert(all[i as int] == m.deep_view());
        assert(models(m.scope_chain@) =~= texts(m.scope_chain@));
        let qualified = if m.scope_chain.len() == 0 {
            owned(m.name.as_str())
        } else {
            text3(join(&m.scope_chain, "::").as_str(), "::", m.name.as_str())
        };
        let c = Candidate {
            name: owned(m.name.as_str()),
            qualified,
            line: line_of(m.range.start_line),
            kind: m.kind,
        };
        let ghost before = models(out@);
        let ghost cm = c.deep_view();
        out.push(c);
        assert(models(out@) == before.push(cm));
        assert(want.take(i + 1) =~= want.take(i as int).push(cm));
        i = i + 1;
    }
    assert(want.take(i as int) =~= want);
    out
}

/// The source with the operation done on the symbol that stands in a range.
pub open spec fn edited_source(
    source: Seq<char>,
    range: Range,
    operation: Operation,
    content: Seq<char>,
) -> Result<Seq<char>, Fault> {
    let start = position(bytes(source), range.start_line as nat, range.start_col as nat);
    let end = position(bytes(source), range.end_line as nat, range.end_col as nat);
    match operation {
        Operation::Replace => replaced(source, start, end, content),
        Operation::Delete => replaced(source, start, end, ""@),
        Operation::InsertBefore => replaced(source, start, start, content + "\n"@),
        Operation::InsertAfter => replaced(source, end, end, "\n"@ + content),
    }
}

/// A sum, up to the largest number that fits.
pub open spec fn capped_sum(a: int, b: int) -> u32 {
    if a + b > u32::MAX {
        u32::MAX
    } else {
        (a + b) as u32
    }
}

/// Where a replacement stands. Columns are bytes; the last line break of the replacement
/// does not count.
pub open spec fn replacement_range(range: Range, content: Seq<char>) -> Range {
    let all = lines_of(content);
    let last = if all.len() == 0 {
        0
    } else {
        bytes(all.last()).len() as int
    };
    Range {
        start_line: range.start_line,
        start_col: range.start_col,
        end_line: capped_sum(
            range.start_line as int,
            if all.len() == 0 {
                0
            } else {
                all.len() - 1
            },
        ),
        end_col: if all.len() <= 1 {
            capped_sum(range.start_col as int, last)
        } else {
            capped_sum(0, last)
        },
    }
}

fn add_capped(a: u32, b: usize) -> (r: u32)
    ensures
        r == capped_sum(a as int, b as int),
{
    if b as u64 > (u32::MAX - a) as u64 {
        u32::MAX
    } else {
        a + b as u32
    }
}

fn range_of_replacement(range: &Range, content: &str) -> (r: Range)
    ensures
        r == replacement_range(*range, content@),
{
    let all = lines(content);
    assert(texts(all@).len() == all@.len());
    let last: usize = if all.len() == 0 {
        0
    } else {
        assert(texts(all@).last() == all@[all@.len() - 1]@);
        all[all.len() - 1].as_str().as_bytes().len()
    };
    Range {
        start_line: range.start_line,
        start_col: range.start_col,
        end_line: add_capped(
            range.start_line,
            if all.len() == 0 {
                0
            } else {
                all.len() - 1
            },
        ),
        end_col: if all.len() <= 1 {
            add_capped(range.start_col, last)
        } else {
            add_capped(0, last)
        },
    }
}

/// What an edit makes of a file.
pub struct SymbolEdit {
    pub operation: Operation,
    pub range: Range,
    pub new_range: Option<Range>,
    pub source: String,
    pub new_source: String,
    /// What the backup before the edit is called.
    pub description: String,
}

/// What comes of a request to edit a symbol.
pub enum EditOutcome {
    /// Several symbols have the name.
    Ambiguous(Vec<Candidate>),
    /// The file is to be written.
    Edited(SymbolEdit),
}

/// The model of an `EditOutcome`.
pub ghost enum Edited {
    Ambiguous(Seq<Choice>),
    Edited {
        operation: Operation,
        range: Range,
        new_range: Option<Range>,
        source: Seq<char>,
        new_source: Seq<char>,
        description: Seq<char>,
    },
}

impl DeepView for EditOutcome {
    type V = Edited;

    open spec fn deep_view(&self) -> Edited {
        match *self {
            EditOutcome::Ambiguous(list) => Edited::Ambiguous(models(list@)),
            EditOutcome::Edited(e) => Edited::Edited {
                operation: e.operation,
                range: e.range,
                new_range: e.new_range,
                source: e.source@,
                new_source: e.new_source@,
                description: e.description@,
            },
        }
    }
}

/// The symbols that a name means, once the scope and the hints of a language server are
/// taken into account. `hinted` is what the hints leave, where there are any.
pub open spec fn meant(
    found: Seq<Found>,
    scope: Option<Seq<char>>,
    hinted: Option<Seq<Found>>,
) -> Seq<Found> {
    match hinted {
        Some(list) => list,
        None => narrowed(found, scope),
    }
}

/// What comes of a request whose name means the symbols of `list`.
pub open spec fn symbol_edit(ask: EditAsk, list: Seq<Found>, t: Target) -> Result<
    Edited,
    RefusalModel,
> {
    if list.len() > 1 {
        Ok(Edited::Ambiguous(list.map_values(|f: Found| choice_of(f))))
    } else if list.len() == 0 {
        Err(
            refused(
                "symbol_not_found"@,
                "symbol '"@ + ask.symbol + "' not found in "@ + ask.file,
            ),
        )
    } else {
        match content_model(t) {
            Err(e) => Err(refused("file_not_found"@, ask.file + ": "@ + e)),
            Ok(source) => {
                let content = match ask.content {
                    Some(s) => s,
                    None => ""@,
                };
                match edited_source(source, list[0].range, ask.operation, content) {
                    Err(f) => Err(RefusalModel::Error(f)),
                    Ok(new_source) => Ok(
                        Edited::Edited {
                            operation: ask.operation,
                            range: list[0].range,
                            new_range: if ask.operation == Operation::Replace {
                                Some(replacement_range(list[0].range, content))
                            } else {
                                None
                            },
                            source,
                            new_source,
                            description: "edit_symbol: "@ + ask.operation.named() + " "@
                                + ask.symbol,
                        },
                    ),
                }
            },
        }
    }
}

/// What comes of a request to edit a symbol of a file, where the name means what `found`
/// and `hinted` say.
pub open spec fn edit_outcome(
    params: Json,
    t: Target,
    found: Result<Seq<Found>, Fault>,
    hinted: Option<Seq<Found>>,
) -> Result<Edited, RefusalModel> {
    match edit_ask(params) {
        Err(e) => Err(e),
        Ok(ask) => if !t.exists {
            Err(refused("file_not_found"@, "file not found: "@ + ask.file))
        } else {
            match found {
                Err(f) => Err(RefusalModel::Error(f)),
                Ok(list) => symbol_edit(ask, meant(list, ask.scope, hinted), t),
            }
        },
    }
}

fn apply_edit(ask: &EditRequest<'_>, list: &Vec<SymbolMatch>, target: &Target) -> (r: Result<
    EditOutcome,
    Refusal,
>)
    ensures
        verdict(r) == symbol_edit(
            ask.deep_view(),
            models(list@),
            *target,
        ),
{
    let ghost all = models(list@);
    if list.len() > 1 {
        return Ok(EditOutcome::Ambiguous(candidates(list)));
    }
    if list.len() == 0 {
        return Err(
            refuse(
                "symbol_not_found",
                text4("symbol '", ask.symbol, "' not found in ", ask.file),
            ),
        );
    }
    let range = list[0].range;
    assert(all[0].range == range);
    let source = match &target.content {
        Ok(s) => s.as_str(),
        Err(e) => {
            return Err(refuse("file_not_found", text3(ask.file, ": ", e.as_str())));
        },
    };
    let start = line_col_to_byte(source, range.start_line, range.start_col);
    let end = line_col_to_byte(source, range.end_line, range.end_col);
    let content = match ask.content {
        Some(s) => s,
        None => "",
    };
    let edited = match ask.operation {
        Operation::Replace => replace_byte_range(source, start, end, content),
        Operation::Delete => replace_byte_range(source, start, end, ""),
        Operation::InsertBefore => replace_byte_range(
            source,
            start,
            start,
            text2(content, "\n").as_str(),
        ),
        Operation::InsertAfter => replace_byte_range(
            source,
            end,
            end,
            text2("\n", content).as_str(),
        ),
    };
    let new_source = match edited {
        Ok(s) => s,
        Err(e) => {
            return Err(Refusal::Error(e));
        },
    };
    let new_range = if ask.operation == Operation::Replace {
        Some(range_of_replacement(&range, content))
    } else {
        None
    };
    Ok(
        EditOutcome::Edited(
            SymbolEdit {
                operation: ask.operation,
                range,
                new_range,
                source: owned(source),
                new_source,
                description: text4(
                    "edit_symbol: ",
                    ask.operation.name(),
                    " ",
                    ask.symbol,
                ),
            },
        ),
    )
}

/// What comes of a request to edit a symbol. `found` are the symbols with the name, and
/// `hinted` is what the hints of a language server leave of them once the scope has
/// narrowed them.
pub fn handle_edit_symbol(
    params: &Json,
    target: &Target,
    found: Result<Vec<SymbolMatch>, AftError>,
    hinted: Option<Vec<SymbolMatch>>,
) -> (r: Result<EditOutcome, Refusal>)
    ensures
        verdict(r) == edit_outcome(
            *params,
            *target,
            match found {
                Ok(list) => Ok(models(list@)),
                Err(e) => Err(e.deep_view()),
            },
            match hinted {
                Some(list) => Some(models(list@)),
                None => None,
            },
        ),
{
    let ask = match read_edit_request(params) {
        Ok(a) => a,
        Err(e) => {
            return Err(e);
        },
    };
    if !target.exists {
        return Err(refuse("file_not_found", text2("file not found: ", ask.file)));
    }
    let list = match found {
        Ok(list) => list,
        Err(e) => {
            return Err(Refusal::Error(e));
        },
    };
    let list = match hinted {
        Some(h) => h,
        None => narrow_matches(list, ask.scope),
    };
    apply_edit(&ask, &list, target)
}

/// The lines round an edit, once the file is written.
pub struct EditContext {
    pub before: Vec<String>,
    pub after: Vec<String>,
}

/// Up to three lines before a line.
pub open spec fn three_before(all: Seq<Seq<char>>, start: int) -> Seq<Seq<char>> {
    if start >= 3 {
        all.subrange(start - 3, start)
    } else {
        all.subrange(0, start)
    }
}

/// Up to three lines from a line on.
pub open spec fn three_after(all: Seq<Seq<char>>, end: int) -> Seq<Seq<char>> {
    if end + 3 <= all.len() {
        all.subrange(end, end + 3)
    } else {
        all.subrange(end, all.len() as int)
    }
}

/// The line behind an edit that ends in a line.
pub open spec fn line_behind(all: Seq<Seq<char>>, end_line: int) -> int {
    if end_line + 1 <= all.len() {
        end_line + 1
    } else {
        all.len() as int
    }
}

fn some_lines(all: &Vec<String>, from: usize, to: usize) -> (r: Vec<String>)
    requires
        from <= to <= all@.len(),
    ensures
        texts(r@) == texts(all@).subrange(from as int, to as int),
{
    let mut out: Vec<String> = Vec::new();
    let mut i: usize = from;
    while i < to
        invariant
            from <= i <= to <= all@.len(),
            out@.len() == i - from,
            forall|k: int| 0 <= k < out@.len() ==> (#[trigger] out@[k])@ == all@[from + k]@,
        decreases to - i,
    {
        out.push(owned(all[i].as_str()));
        i = i + 1;
    }
    assert(texts(out@) =~= texts(all@).subrange(from as int, to as int));
    out
}

/// The lines round an edit: up to three before it, and up to three behind it. `content` is
/// the file as it was written.
pub fn edit_context(content: &str, range: &Range, new_range: &Option<Range>) -> (r: EditContext)
    requires
        range.start_line <= lines_of(content@).len(),
    ensures
        texts(r.before@) == three_before(lines_of(content@), range.start_line as int),
        texts(r.after@) == three_after(
            lines_of(content@),
            line_behind(
                lines_of(content@),
                match *new_range {
                    Some(n) => n.end_line as int,
                    None => range.end_line as int,
                },
            ),
        ),
{
    let all = lines(content);
    assert(texts(all@).len() == all@.len());
    let start: usize = range.start_line as usize;
    let before = if start >= 3 {
        some_lines(&all, start - 3, start)
    } else {
        some_lines(&all, 0, start)
    };
    let last: usize = match new_range {
        Some(n) => n.end_line as usize,
        None => range.end_line as usize,
    };
    let end: usize = if last < all.len() {
        last + 1
    } else {
        all.len()
    };
    let after = if all.len() - end >= 3 {
        some_lines(&all, end, end + 3)
    } else {
        some_lines(&all, end, all.len())
    };
    EditContext { before, after }
}

/// A replacement leaves what stands before the symbol and behind it as it was.
pub proof fn replacement_keeps_the_rest(source: Seq<char>, range: Range, content: Seq<char>)
    requires
        edited_source(source, range, Operation::Replace, content) is Ok,
    ensures
        ({
            let start = position(bytes(source), range.start_line as nat, range.start_col as nat);
            let end = position(bytes(source), range.end_line as nat, range.end_col as nat);
            let new = edited_source(source, range, Operation::Replace, content)->Ok_0;
            bytes(new) == bytes(source).subrange(0, start) + bytes(content) + bytes(
                source,
            ).subrange(end, bytes(source).len() as int)
        }),
{
    let start = position(bytes(source), range.start_line as nat, range.start_col as nat);
    let end = position(bytes(source), range.end_line as nat, range.end_col as nat);
    lemma_replaced_bytes(source, start, end, content);
}

/// A deletion is a replacement by nothing.
pub proof fn deletion_is_an_empty_replacement(source: Seq<char>, range: Range)
    ensures
        edited_source(source, range, Operation::Delete, ""@) == edited_source(
            source,
            range,
            Operation::Replace,
            ""@,
        ),
{
}

/// Whether a request to edit a symbol is complete: it names a file, a symbol and an operation,
/// and has a content unless it deletes.
pub open spec fn complete_edit(params: Json, operation: Seq<char>) -> bool {
    &&& params.text_field("file"@) is Some
    &&& params.text_field("symbol"@) is Some
    &&& params.text_field("operation"@) == Some(operation)
    &&& operation == "replace"@ || operation == "delete"@ || operation == "insert_before"@
        || operation == "insert_after"@
    &&& operation != "delete"@ ==> params.text_field("content"@) is Some
}

/// The bytes that an operation makes of those of a text, where the symbol stands from one offset
/// to another.
pub open spec fn operated(
    b: Seq<u8>,
    from: int,
    to: int,
    operation: Seq<char>,
    content: Seq<u8>,
) -> Seq<u8> {
    let n = b.len() as int;
    if operation == "insert_after"@ {
        b.subrange(0, to) + seq![10u8] + content + b.subrange(to, n)
    } else if operation == "insert_before"@ {
        b.subrange(0, from) + content + seq![10u8] + b.subrange(from, n)
    } else if operation == "delete"@ {
        b.subrange(0, from) + b.subrange(to, n)
    } else {
        b.subrange(0, from) + content + b.subrange(to, n)
    }
}

proof fn lemma_operation_names()
    ensures
        "replace"@.len() == 7,
        "delete"@.len() == 6,
        "insert_before"@.len() == 13,
        "insert_after"@.len() == 12,
{
    reveal_strlit("replace");
    reveal_strlit("delete");
    reveal_strlit("insert_before");
    reveal_strlit("insert_after");
}

/// An edit of the one symbol that a name means changes the file there and nowhere else. Replacing
/// and deleting take the place of the symbol; inserting puts the content, as lines of their own,
/// right before where the symbol starts or right behind where it ends.
pub proof fn edits_are_made_at_the_symbol(
    params: Json,
    t: Target,
    found: Result<Seq<Found>, Fault>,
    hinted: Option<Seq<Found>>,
    f: Found,
    operation: Seq<char>,
)
    requires
        complete_edit(params, operation),
        t.exists,
        t.content is Ok,
        found is Ok,
        hinted == Some(seq![f]) || (hinted is None && found->Ok_0 == seq![f]),
        ({
            let s = (t.content->Ok_0)@;
            char_range(
                s,
                position(bytes(s), f.range.start_line as nat, f.range.start_col as nat),
                position(bytes(s), f.range.end_line as nat, f.range.end_col as nat),
            )
        }),
    ensures
        ({
            let s = (t.content->Ok_0)@;
            let from = position(bytes(s), f.range.start_line as nat, f.range.start_col as nat);
            let to = position(bytes(s), f.range.end_line as nat, f.range.end_col as nat);
            match edit_outcome(params, t, found, hinted) {
                Ok(Edited::Edited { range, source, new_source, .. }) => {
                    &&& range == f.range
                    &&& source == s
                    &&& bytes(new_source) == operated(
                        bytes(s),
                        from,
                        to,
                        operation,
                        match params.text_field("content"@) {
                            Some(c) => bytes(c),
                            None => Seq::empty(),
                        },
                    )
                },
                _ => false,
            }
        }),
{
    lemma_operation_names();
    lemma_line_feed_bytes();
    let s = (t.content->Ok_0)@;
    let from = position(bytes(s), f.range.start_line as nat, f.range.start_col as nat);
    let to = position(bytes(s), f.range.end_line as nat, f.range.end_col as nat);
    let c = match params.text_field("content"@) {
        Some(c) => c,
        None => ""@,
    };
    lemma_bytes_add(c, "\n"@);
    lemma_bytes_add("\n"@, c);
    replacements_change_their_range(s, from, to, c);
    replacements_change_their_range(s, from, to, ""@);
    replacements_change_their_range(s, from, from, c + "\n"@);
    replacements_change_their_range(s, to, to, "\n"@ + c);
    match edit_outcome(params, t, found, hinted) {
        Ok(Edited::Edited { new_source, .. }) => {
            assert(bytes(new_source) =~= operated(
                bytes(s),
                from,
                to,
                operation,
                match params.text_field("content"@) {
                    Some(c) => bytes(c),
                    None => Seq::empty(),
                },
            ));
        },
        _ => {},
    }
}

proof fn lemma_scoped(list: Seq<Found>, scope: Seq<char>)
    ensures
        scoped(list, scope) == list.filter(
            |f: Found| f.scope_chain.contains(scope) || f.parent == Some(scope),
        ),
    decreases list.len(),
{
    reveal(Seq::filter);
    if list.len() > 0 {
        lemma_scoped(list.drop_last(), scope);
    }
}

/// Where several symbols have the name, those are meant that stand in the scope of the request or
/// have it as their parent; all of them without one. Where several are meant nothing is changed,
/// and each is told with its line; where none is, the request is refused.
pub proof fn ambiguous_names_change_nothing(params: Json, t: Target, list: Seq<Found>, operation: Seq<char>)
    requires
        complete_edit(params, operation),
        t.exists,
        list.len() > 1,
    ensures
        ({
            let left = match params.text_field("scope"@) {
                Some(scope) => list.filter(
                    |f: Found| f.scope_chain.contains(scope) || f.parent == Some(scope),
                ),
                None => list,
            };
            let told = edit_outcome(params, t, Ok(list), None);
            &&& left.len() > 1 ==> {
                &&& told is Ok
                &&& told->Ok_0 is Ambiguous
                &&& told->Ok_0->Ambiguous_0.len() == left.len()
                &&& forall|i: int|
                    0 <= i < left.len() ==> {
                        let c = #[trigger] told->Ok_0->Ambiguous_0[i];
                        &&& c.name == left[i].name
                        &&& c.kind == left[i].kind
                        &&& left[i].range.start_line < u32::MAX ==> c.line
                            == left[i].range.start_line + 1
                        &&& left[i].scope_chain.len() == 0 ==> c.qualified == left[i].name
                        &&& left[i].scope_chain.len() == 1 ==> c.qualified
                            == left[i].scope_chain[0] + seq![':', ':'] + left[i].name
                    }
            }
            &&& left.len() == 0 ==> told is Err
            &&& left.len() == 1 ==> told == edit_outcome(params, t, Ok(list), Some(left))
        }),
{
    lemma_operation_names();
    reveal_strlit("::");
    assert("::"@ =~= seq![':', ':']);
    match params.text_field("scope"@) {
        Some(scope) => {
            lemma_scoped(list, scope);
        },
        None => {},
    }
    let told = edit_outcome(params, t, Ok(list), None);
    let left = match params.text_field("scope"@) {
        Some(scope) => list.filter(
            |f: Found| f.scope_chain.contains(scope) || f.parent == Some(scope),
        ),
        None => list,
    };
    if left.len() > 1 {
        assert forall|i: int| 0 <= i < left.len() && left[i].scope_chain.len() == 1 implies (
        #[trigger] told->Ok_0->Ambiguous_0[i]).qualified == left[i].scope_chain[0] + seq![':', ':']
            + left[i].name by {
            assert(joined(left[i].scope_chain, "::"@) =~= left[i].scope_chain[0]);
        }
    }
}

/// A replacement starts where the symbol started. Where it is a single line it ends as many bytes
/// behind that.
pub proof fn replacement_is_told_where_it_stands(range: Range, content: Seq<char>)
    ensures
        replacement_range(range, content).start_line == range.start_line,
        replacement_range(range, content).start_col == range.start_col,
        content.len() > 0 && !content.contains('\n') && range.start_col + bytes(content).len()
            <= u32::MAX ==> replacement_range(range, content).end_line == range.start_line
            && replacement_range(range, content).end_col == range.start_col + bytes(content).len(),
{
    if content.len() > 0 && !content.contains('\n') {
        lemma_char_found(content, '\n', 0);
        assert(find_char_from(content, '\n', 0) is None) by {
            match find_char_from(content, '\n', 0) {
                Some(i) => {
                    assert(content[i] == '\n');
                },
                None => {},
            }
        }
        assert(lines_of(content) =~= seq![content]);
    }
}

/// The lines that are shown round an edit stand right before it and right behind it, up to three
/// on each side, and as many as there are where there are fewer.
pub proof fn context_stands_next_to_the_edit(all: Seq<Seq<char>>, start: int, last: int)
    requires
        0 <= start <= all.len(),
        0 <= last,
    ensures
        ({
            let before = three_before(all, start);
            let after = three_after(all, line_behind(all, last));
            &&& before.len() == if start < 3 { start } else { 3 }
            &&& forall|k: int|
                0 <= k < before.len() ==> #[trigger] before[k] == all[start - before.len() + k]
            &&& last >= all.len() ==> after.len() == 0
            &&& last < all.len() ==> after.len() == if all.len() - last - 1 < 3 {
                all.len() - last - 1
            } else {
                3
            }
            &&& forall|k: int| 0 <= k < after.len() ==> #[trigger] after[k] == all[last + 1 + k]
        }),
{
}

} // verus!
