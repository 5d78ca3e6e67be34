//! Derives of Rust structs and enums.
use vstd::prelude::*;
use vstd::slice::slice_subrange;

use crate::commands::ast_search::{list_of, listed};
use crate::commands::refusal::{
    invalid, need, needed, refuse, refused, reject, verdict, Refusal, RefusalModel,
};
use crate::commands::target::{read_source_in, source_in, Target};
use crate::edit::{
    bytes, char_range, find_line_start, indent_at, line_indent, line_start, replace_byte_range,
    replaced, replacements_change_their_range,
};
use crate::json::Json;
use crate::lang::{path_lang, LangId};
use crate::models::{copy_strings, models};
use crate::order::add_distinct;
use crate::syntax::{
    first_of_a_kind_is_found, is_first_kind, lemma_children, parse, syntax_of, trees, SyntaxNode,
    Tree,
};
use crate::text::{
    chars_of, chars_start_with, ends_with, find_char_from, join, joined, lemma_char_behind,
    lemma_char_found, lemma_joined_front, owned, same, split_chars, split_on, text2, text3, text5,
    texts, trim, trimmed, trimmed_end, trimmed_start, white_space,
};

verus! {

/// A request to add derives.
pub struct DeriveRequest<'a> {
    pub file: &'a str,
    pub target: &'a str,
    pub derives: Vec<String>,
}

/// The model of a `DeriveRequest`.
pub ghost struct DeriveAsk {
    pub file: Seq<char>,
    pub target: Seq<char>,
    pub derives: Seq<Seq<char>>,
}

impl<'a> DeepView for DeriveRequest<'a> {
    type V = DeriveAsk;

    open spec fn deep_view(&self) -> DeriveAsk {
        DeriveAsk { file: self.file@, target: self.target@, derives: texts(self.derives@) }
    }
}

/// The request that the parameters make.
pub open spec fn derive_ask(params: Json) -> Result<DeriveAsk, RefusalModel> {
    match (
        needed(params, "add_derive"@, "file"@),
        needed(params, "add_derive"@, "target"@),
        params.items_field("derives"@),
    ) {
        (Err(e), _, _) => Err(e),
        (_, Err(e), _) => Err(e),
        (_, _, None) => Err(
            invalid("add_derive: missing required param 'derives' (array of strings)"@),
        ),
        (Ok(file), Ok(target), Some(_)) => if listed(params, "derives"@).len() == 0 {
            Err(invalid("add_derive: 'derives' array must not be empty"@))
        } else {
            Ok(DeriveAsk { file, target, derives: listed(params, "derives"@) })
        },
    }
}

/// The request that the parameters make.
pub fn read_derive_request(params: &Json) -> (r: Result<DeriveRequest<'_>, Refusal>)
    ensures
        match (r, derive_ask(*params)) {
            (Ok(a), Ok(b)) => a.deep_view() == b,
            (Err(e), Err(m)) => e.deep_view() == m,
            _ => false,
        },
{
    let file = match need(params, "add_derive", "file") {
        Ok(s) => s,
        Err(e) => {
            return Err(e);
        },
    };
    let target = match need(params, "add_derive", "target") {
        Ok(s) => s,
        Err(e) => {
            return Err(e);
        },
    };
    if params.get_items("derives").is_none() {
        return Err(reject("add_derive: missing required param 'derives' (array of strings)"));
    }
    let derives = list_of(params, "derives");
    assert(texts(derives@).len() == derives@.len());
    if derives.len() == 0 {
        return Err(reject("add_derive: 'derives' array must not be empty"));
    }
    Ok(DeriveRequest { file, target, derives })
}

/// The name of the struct or enum that a node declares.
pub open spec fn item_name(t: Tree) -> Option<Seq<char>> {
    if t.kind == "struct_item"@ || t.kind == "enum_item"@ {
        match t.child_of_kind("type_identifier"@) {
            Some(n) => Some(n.text),
            None => None,
        }
    } else {
        None
    }
}

fn read_item_name(node: &SyntaxNode) -> (r: Option<&str>)
    ensures
        match (r, item_name(node@)) {
            (Some(a), Some(b)) => a@ == b,
            (None, None) => true,
            _ => false,
        },
{
    if node.is_kind("struct_item") || node.is_kind("enum_item") {
        match node.child_by_kind("type_identifier") {
            Some(n) => Some(n.text.as_str()),
            None => None,
        }
    } else {
        None
    }
}

/// Where the first struct or enum with a name starts, among nodes from `from` on.
pub open spec fn item_start(list: Seq<Tree>, name: Seq<char>, from: int) -> Option<int>
    decreases list.len() - from,
{
    if from < 0 || from >= list.len() {
        None
    } else if item_name(list[from]) == Some(name) {
        Some(list[from].start)
    } else {
        item_start(list, name, from + 1)
    }
}

/// The names of the structs and enums among the first `n` nodes.
pub open spec fn item_names(list: Seq<Tree>, n: int) -> Seq<Seq<char>>
    decreases n,
{
    if n <= 0 || n > list.len() {
        Seq::empty()
    } else {
        match item_name(list[n - 1]) {
            Some(name) => item_names(list, n - 1).push(name),
            None => item_names(list, n - 1),
        }
    }
}

/// Where a struct or enum of a file starts; the names of those that the file has, where it is
/// not among them.
pub fn find_target(root: &SyntaxNode, target_name: &str) -> (r: Result<usize, Vec<String>>)
    ensures
        match (r, item_start(root@.children, target_name@, 0)) {
            (Ok(a), Some(b)) => a == b,
            (Err(names), None) => texts(names@) == item_names(
                root@.children,
                root@.children.len() as int,
            ),
            _ => false,
        },
{
    broadcast use lemma_children;

    let ghost list = root@.children;
    let mut available: Vec<String> = Vec::new();
    let mut i: usize = 0;
    assert(texts(available@) =~= Seq::<Seq<char>>::empty());
    while i < root.children.len()
        invariant
            i <= root.children.len(),
            list == trees(root.children@),
            list == root@.children,
            texts(available@) == item_names(list, i as int),
            item_start(list, target_name@, 0) == item_start(list, target_name@, i as int),
        decreases root.children.len() - i,
    {
        let node = &root.children[i];
        assert(list[i as int] == node@);
        match read_item_name(node) {
            Some(name) => {
                if same(name, target_name) {
                    return Ok(node.start_byte);
                }
                let ghost before = texts(available@);
                available.push(owned(name));
                assert(texts(available@) =~= before.push(name@));
            },
            None => {},
        }
        i = i + 1;
    }
    Err(available)
}

/// The parts of a list that are not blank, trimmed, of the first `n`.
pub open spec fn kept_parts(parts: Seq<Seq<char>>, n: int) -> Seq<Seq<char>>
    decreases n,
{
    if n <= 0 || n > parts.len() {
        Seq::empty()
    } else if trimmed(parts[n - 1]).len() == 0 {
        kept_parts(parts, n - 1)
    } else {
        kept_parts(parts, n - 1).push(trimmed(parts[n - 1]))
    }
}

/// The names in a list with commas.
pub open spec fn comma_names(s: Seq<char>) -> Seq<Seq<char>> {
    kept_parts(split_on(s, ','), split_on(s, ',').len() as int)
}

/// The names of a derive attribute, where the text is one.
pub open spec fn derives_in(text: Seq<char>) -> Option<Seq<Seq<char>>> {
    let t = trimmed(text);
    if "#[derive("@.is_prefix_of(t) && ")]"@.is_suffix_of(t) {
        Some(comma_names(t.subrange(9, t.len() - 2)))
    } else {
        None
    }
}

fn list_names(c: &[char]) -> (r: Vec<String>)
    ensures
        texts(r@) == comma_names(c@),
{
    let parts = split_chars(c, ',');
    let ghost all = texts(parts@);
    let mut out: Vec<String> = Vec::new();
    let mut i: usize = 0;
    assert(texts(out@) =~= Seq::<Seq<char>>::empty());
    while i < parts.len()
        invariant
            i <= parts.len(),
            all == texts(parts@),
            texts(out@) == kept_parts(all, i as int),
        decreases parts.len() - i,
    {
        assert(all[i as int] == parts@[i as int]@);
        let name = trim(parts[i].as_str());
        if !name.as_str().is_empty() {
            let ghost before = texts(out@);
            let ghost m = name@;
            out.push(name);
            assert(texts(out@) =~= before.push(m));
        }
        i = i + 1;
    }
    assert(all.len() == parts@.len());
    out
}

proof fn lemma_derive_marks(t: Seq<char>)
    requires
        "#[derive("@.is_prefix_of(t),
        ")]"@.is_suffix_of(t),
    ensures
        t.len() >= 11,
{
    reveal_strlit("#[derive(");
    reveal_strlit(")]");
    assert(t[8] == "#[derive("@[8]);
    assert(t[t.len() - 2] == ")]"@[0]);
    assert(t[t.len() - 1] == ")]"@[1]);
}

/// The names of a derive attribute, where the text is one.
pub fn parse_derive_attr(text: &str) -> (r: Option<Vec<String>>)
    ensures
        match (r, derives_in(text@)) {
            (Some(a), Some(b)) => texts(a@) == b,
            (None, None) => true,
            _ => false,
        },
{
    let t = trim(text);
    let c = chars_of(t.as_str());
    let mark = chars_of("#[derive(");
    if !chars_start_with(c.as_slice(), mark.as_slice()) || !ends_with(t.as_str(), ")]") {
        return None;
    }
    proof {
        lemma_derive_marks(t@);
    }
    Some(list_names(slice_subrange(c.as_slice(), 9, c.len() - 2)))
}

/// The first node from `from` on that is no attribute and starts at an offset.
pub open spec fn index_at(list: Seq<Tree>, start: int, from: int) -> Option<int>
    decreases list.len() - from,
{
    if from < 0 || from >= list.len() {
        None
    } else if list[from].kind != "attribute_item"@ && list[from].start == start {
        Some(from)
    } else {
        index_at(list, start, from + 1)
    }
}

/// A derive attribute: where it stands, and its names.
pub ghost struct Derive {
    pub start: int,
    pub end: int,
    pub names: Seq<Seq<char>>,
}

/// The last derive among the attributes that stand right before the node `n`.
pub open spec fn derive_before(list: Seq<Tree>, n: int) -> Option<Derive>
    decreases n,
{
    if n <= 0 || n > list.len() || list[n - 1].kind != "attribute_item"@ {
        None
    } else {
        match derives_in(list[n - 1].text) {
            Some(names) => Some(Derive { start: list[n - 1].start, end: list[n - 1].end, names }),
            None => derive_before(list, n - 1),
        }
    }
}

/// The derive of the item that starts at an offset.
pub open spec fn derive_of(list: Seq<Tree>, start: int) -> Option<Derive> {
    match index_at(list, start, 0) {
        Some(n) => derive_before(list, n),
        None => None,
    }
}

/// A derive attribute: where it stands, and its names.
pub struct DeriveAttr {
    pub start_byte: usize,
    pub end_byte: usize,
    pub existing_derives: Vec<String>,
}

impl DeepView for DeriveAttr {
    type V = Derive;

    open spec fn deep_view(&self) -> Derive {
        Derive {
            start: self.start_byte as int,
            end: self.end_byte as int,
            names: models(self.existing_derives@),
        }
    }
}

fn find_derive(root: &SyntaxNode, start: usize) -> (r: Option<DeriveAttr>)
    ensures
        r.deep_view() == derive_of(root@.children, start as int),
{
    broadcast use lemma_children;

    let ghost list = root@.children;
    let mut n: usize = 0;
    while n < root.children.len()
        invariant
            n <= root.children.len(),
            list == trees(root.children@),
            list == root@.children,
            index_at(list, start as int, 0) == index_at(list, start as int, n as int),
        decreases root.children.len() - n,
    {
        let node = &root.children[n];
        assert(list[n as int] == node@);
        if !node.is_kind("attribute_item") && node.start_byte == start {
            let mut k: usize = n;
            while k > 0
                invariant
                    k <= n < root.children.len(),
                    list == trees(root.children@),
                    list == root@.children,
                    derive_of(list, start as int) == derive_before(list, k as int),
                decreases k,
            {
                let before = &root.children[k - 1];
                assert(list[k - 1] == before@);
                if !before.is_kind("attribute_item") {
                    return None;
                }
                match parse_derive_attr(before.text.as_str()) {
                    Some(names) => {
                        assert(texts(names@) =~= models(names@));
                        return Some(
                            DeriveAttr {
                                start_byte: before.start_byte,
                                end_byte: before.end_byte,
                                existing_derives: names,
                            },
                        );
                    },
                    None => {},
                }
                k = k - 1;
            }
            return None;
        }
        n = n + 1;
    }
    None
}

/// Names with the first `n` of others behind them that are not there yet.
pub open spec fn merged(names: Seq<Seq<char>>, more: Seq<Seq<char>>, n: int) -> Seq<Seq<char>>
    decreases n,
{
    if n <= 0 || n > more.len() {
        names
    } else {
        let before = merged(names, more, n - 1);
        if before.contains(more[n - 1]) {
            before
        } else {
            before.push(more[n - 1])
        }
    }
}

fn merge(names: Vec<String>, more: &Vec<String>) -> (r: Vec<String>)
    ensures
        texts(r@) == merged(models(names@), texts(more@), more@.len() as int),
{
    let ghost all = texts(more@);
    let mut out = names;
    let mut i: usize = 0;
    while i < more.len()
        invariant
            i <= more.len(),
            all == texts(more@),
            models(out@) == merged(models(names@), all, i as int),
        decreases more.len() - i,
    {
        assert(all[i as int] == more@[i as int]@);
        add_distinct(&mut out, owned(more[i].as_str()));
        i = i + 1;
    }
    assert(texts(out@) =~= models(out@));
    out
}

/// A file with derives added, and all derives of the item.
pub struct DeriveEdit {
    pub new_source: String,
    pub derives: Vec<String>,
}

/// The model of a `DeriveEdit`.
pub ghost struct Derived {
    pub new_source: Seq<char>,
    pub derives: Seq<Seq<char>>,
}

impl DeepView for DeriveEdit {
    type V = Derived;

    open spec fn deep_view(&self) -> Derived {
        Derived { new_source: self.new_source@, derives: texts(self.derives@) }
    }
}

/// The text of a derive attribute.
pub open spec fn derive_text(names: Seq<Seq<char>>) -> Seq<char> {
    "#[derive("@ + joined(names, ", "@) + ")]"@
}

/// A text with a part replaced, or the text itself where that cannot be.
pub open spec fn replaced_or_same(s: Seq<char>, start: int, end: int, by: Seq<char>) -> Seq<char> {
    match replaced(s, start, end, by) {
        Ok(t) => t,
        Err(_) => s,
    }
}

fn replace_or_same(source: &str, start: usize, end: usize, by: &str) -> (r: String)
    ensures
        r@ == replaced_or_same(source@, start as int, end as int, by@),
{
    match replace_byte_range(source, start, end, by) {
        Ok(s) => s,
        Err(_) => owned(source),
    }
}

/// The source with derives added to the item that starts at an offset: to the attribute that
/// it has, or in a new one on the line before it.
pub open spec fn derived(
    source: Seq<char>,
    list: Seq<Tree>,
    start: int,
    more: Seq<Seq<char>>,
) -> Derived {
    match derive_of(list, start) {
        Some(attr) => {
            let all = merged(attr.names, more, more.len() as int);
            Derived {
                new_source: replaced_or_same(source, attr.start, attr.end, derive_text(all)),
                derives: all,
            }
        },
        None => {
            let at = line_start(bytes(source), start);
            Derived {
                new_source: replaced_or_same(
                    source,
                    at,
                    at,
                    line_indent(source, start) + derive_text(more) + "\n"@,
                ),
                derives: more,
            }
        },
    }
}

fn write_derive(names: &Vec<String>) -> (r: String)
    ensures
        r@ == derive_text(texts(names@)),
{
    text3("#[derive(", join(names, ", ").as_str(), ")]")
}

/// The source with derives added to the item that starts at an offset.
pub fn apply_derive(source: &str, root: &SyntaxNode, start: usize, new_derives: &Vec<String>) -> (r:
    DeriveEdit)
    ensures
        r.deep_view() == derived(source@, root@.children, start as int, texts(new_derives@)),
{
    assert(texts(new_derives@).len() == new_derives@.len());
    match find_derive(root, start) {
        Some(attr) => {
            let all = merge(attr.existing_derives, new_derives);
            let text = write_derive(&all);
            DeriveEdit {
                new_source: replace_or_same(
                    source,
                    attr.start_byte,
                    attr.end_byte,
                    text.as_str(),
                ),
                derives: all,
            }
        },
        None => {
            let at = find_line_start(source.as_bytes(), start);
            let line = text3(
                indent_at(source, start).as_str(),
                write_derive(new_derives).as_str(),
                "\n",
            );
            DeriveEdit {
                new_source: replace_or_same(source, at, at, line.as_str()),
                derives: copy_strings(new_derives),
            }
        },
    }
}

/// What a request makes of a Rust file with a syntax tree.
pub open spec fn derived_in(ask: DeriveAsk, source: Seq<char>, root: Tree) -> Result<
    Derived,
    RefusalModel,
> {
    match item_start(root.children, ask.target, 0) {
        Some(start) => Ok(derived(source, root.children, start, ask.derives)),
        None => {
            let names = item_names(root.children, root.children.len() as int);
            Err(
                refused(
                    "target_not_found"@,
                    if names.len() == 0 {
                        "add_derive: target '"@ + ask.target + "' not found in "@ + ask.file
                            + " (no structs/enums found)"@
                    } else {
                        "add_derive: target '"@ + ask.target + "' not found in "@ + ask.file + (
                        ", available: ["@ + joined(names, ", "@) + "]"@)
                    },
                ),
            )
        },
    }
}

/// What a request makes of a Rust file with a syntax tree.
pub fn derive_in_tree(ask: &DeriveRequest<'_>, source: &str, root: &SyntaxNode) -> (r: Result<
    DeriveEdit,
    Refusal,
>)
    ensures
        verdict(r) == derived_in(ask.deep_view(), source@, root@),
{
    match find_target(root, ask.target) {
        Ok(start) => Ok(apply_derive(source, root, start, &ask.derives)),
        Err(names) => {
            assert(texts(names@).len() == names@.len());
            let end = if names.len() == 0 {
                owned(" (no structs/enums found)")
            } else {
                text3(", available: [", join(&names, ", ").as_str(), "]")
            };
            Err(
                refuse(
                    "target_not_found",
                    text5(
                        "add_derive: target '",
                        ask.target,
                        "' not found in ",
                        ask.file,
                        end.as_str(),
                    ),
                ),
            )
        },
    }
}

/// The text of the Rust file that a request names.
pub open spec fn rust_source(file: Seq<char>, t: Target) -> Result<Seq<char>, RefusalModel> {
    source_in(
        "add_derive"@,
        file,
        t,
        LangId::Rust,
        ": only Rust files are supported"@,
        ": only Rust files are supported"@,
    )
}

/// What a request makes of the file that it names.
pub open spec fn derive_outcome(params: Json, t: Target) -> Result<Derived, RefusalModel> {
    match derive_ask(params) {
        Err(e) => Err(e),
        Ok(ask) => match rust_source(ask.file, t) {
            Err(e) => Err(e),
            Ok(source) => match syntax_of(source, LangId::Rust) {
                None => Err(
                    refused("parse_error"@, "add_derive: parse failed for "@ + ask.file),
                ),
                Some(root) => derived_in(ask, source, root),
            },
        },
    }
}

/// What a request makes of the file that it names.
pub fn handle_add_derive(params: &Json, target: &Target) -> (r: Result<DeriveEdit, Refusal>)
    ensures
        verdict(r) == derive_outcome(*params, *target),
{
    let ask = match read_derive_request(params) {
        Ok(a) => a,
        Err(e) => {
            return Err(e);
        },
    };
    let source = match read_source_in(
        "add_derive",
        ask.file,
        target,
        LangId::Rust,
        ": only Rust files are supported",
        ": only Rust files are supported",
    ) {
        Ok(s) => s,
        Err(e) => {
            return Err(e);
        },
    };
    match parse(source, LangId::Rust) {
        None => Err(refuse("parse_error", text2("add_derive: parse failed for ", ask.file))),
        Some(root) => derive_in_tree(&ask, source, &root),
    }
}

proof fn lemma_merged(names: Seq<Seq<char>>, more: Seq<Seq<char>>, n: int)
    requires
        0 <= n <= more.len(),
    ensures
        names.is_prefix_of(merged(names, more, n)),
        forall|i: int| 0 <= i < n ==> merged(names, more, n).contains(#[trigger] more[i]),
        names.no_duplicates() ==> merged(names, more, n).no_duplicates(),
    decreases n,
{
    if n > 0 {
        lemma_merged(names, more, n - 1);
        let before = merged(names, more, n - 1);
        let after = merged(names, more, n);
        assert forall|i: int| 0 <= i < n implies after.contains(#[trigger] more[i]) by {
            if i < n - 1 {
                assert(before.contains(more[i]));
                let k = choose|k: int| 0 <= k < before.len() && before[k] == more[i];
                assert(after[k] == more[i]);
            } else if !before.contains(more[i]) {
                assert(after[before.len() as int] == more[i]);
            }
        }
        assert(names =~= after.take(names.len() as int));
    } else {
        assert(names =~= names.take(names.len() as int));
    }
}

/// Added derives are there, those that were there stay in front, and none that was there once
/// comes to be there twice.
pub proof fn derives_are_merged(names: Seq<Seq<char>>, more: Seq<Seq<char>>)
    ensures
        names.is_prefix_of(merged(names, more, more.len() as int)),
        forall|i: int|
            0 <= i < more.len() ==> merged(names, more, more.len() as int).contains(
                #[trigger] more[i],
            ),
        names.no_duplicates() ==> merged(names, more, more.len() as int).no_duplicates(),
{
    lemma_merged(names, more, more.len() as int);
}

/// Whether a text can be a name in a list with commas: it is not empty, holds no comma, and
/// no white space stands at its ends.
pub open spec fn plain_name(s: Seq<char>) -> bool {
    s.len() > 0 && !s.contains(',') && !white_space(s[0]) && !white_space(s.last())
}

proof fn lemma_trimmed_name(s: Seq<char>)
    requires
        plain_name(s),
    ensures
        trimmed(s) == s,
        trimmed(" "@ + s) == s,
{
    reveal_strlit(" ");
    reveal_with_fuel(trimmed_start, 2);
    assert(trimmed_start(s) == s);
    assert(trimmed_end(s) == s);
    let spaced = " "@ + s;
    assert(spaced[0] == ' ');
    assert(spaced.drop_first() =~= s);
    assert(trimmed_start(spaced) == s);
}

proof fn lemma_kept_front(parts: Seq<Seq<char>>, n: int)
    requires
        0 < n <= parts.len(),
    ensures
        kept_parts(parts, n) == (if trimmed(parts[0]).len() == 0 {
            Seq::empty()
        } else {
            seq![trimmed(parts[0])]
        }) + kept_parts(parts.drop_first(), n - 1),
    decreases n,
{
    let head = if trimmed(parts[0]).len() == 0 {
        Seq::<Seq<char>>::empty()
    } else {
        seq![trimmed(parts[0])]
    };
    if n == 1 {
        assert(kept_parts(parts, 0) =~= Seq::<Seq<char>>::empty());
        assert(kept_parts(parts, 1) =~= head + kept_parts(parts.drop_first(), 0));
    } else {
        lemma_kept_front(parts, n - 1);
        assert(parts.drop_first()[n - 2] == parts[n - 1]);
        assert(kept_parts(parts, n) =~= head + kept_parts(parts.drop_first(), n - 1));
    }
}

proof fn lemma_last_name(first: Seq<char>, name: Seq<char>)
    requires
        !first.contains(','),
        trimmed(first) == name,
        name.len() > 0,
    ensures
        comma_names(first) == seq![name],
{
    lemma_char_found(first, ',', 0);
    let parts = split_on(first, ',');
    assert(parts == seq![first]);
    lemma_kept_front(parts, 1);
    assert(kept_parts(parts.drop_first(), 0) == Seq::<Seq<char>>::empty());
    assert(comma_names(first) =~= seq![name]);
}

proof fn lemma_first_name(first: Seq<char>, name: Seq<char>, behind: Seq<char>)
    requires
        !first.contains(','),
        trimmed(first) == name,
        name.len() > 0,
    ensures
        comma_names(first + (seq![','] + behind)) == seq![name] + comma_names(behind),
{
    let whole = first + (seq![','] + behind);
    lemma_char_behind(first, ',', seq![','] + behind);
    assert(whole.subrange(0, first.len() as int) =~= first);
    assert(whole.subrange(first.len() as int + 1, whole.len() as int) =~= behind);
    let parts = split_on(whole, ',');
    let rest = split_on(behind, ',');
    assert(parts == seq![first] + rest);
    assert(parts[0] == first);
    assert(parts.drop_first() =~= rest);
    lemma_kept_front(parts, parts.len() as int);
}

/// The text of one name of a list, with the space in front that those behind a comma have.
spec fn spaced(name: Seq<char>, lead: bool) -> Seq<char> {
    if lead {
        " "@ + name
    } else {
        name
    }
}

proof fn lemma_spaced(name: Seq<char>, lead: bool)
    requires
        plain_name(name),
    ensures
        !spaced(name, lead).contains(','),
        trimmed(spaced(name, lead)) == name,
{
    reveal_strlit(" ");
    lemma_trimmed_name(name);
    let s = spaced(name, lead);
    if s.contains(',') {
        let k = choose|k: int| 0 <= k < s.len() && s[k] == ',';
        if lead {
            assert(name[k - 1] == ',');
        } else {
            assert(name[k] == ',');
        }
    }
}

proof fn lemma_names_of_list(names: Seq<Seq<char>>, lead: bool)
    requires
        names.len() > 0,
        forall|i: int| 0 <= i < names.len() ==> plain_name(#[trigger] names[i]),
    ensures
        comma_names(spaced(joined(names, ", "@), lead)) == names,
    decreases names.len(),
{
    let first = spaced(names[0], lead);
    lemma_spaced(names[0], lead);
    if names.len() == 1 {
        assert(joined(names, ", "@) == names[0]);
        lemma_last_name(first, names[0]);
        assert(seq![names[0]] =~= names);
    } else {
        let rest = names.drop_first();
        lemma_joined_front(names, ", "@);
        let tail = spaced(joined(rest, ", "@), true);
        assert(spaced(joined(names, ", "@), lead) =~= first + (seq![','] + tail)) by {
            reveal_strlit(" ");
            reveal_strlit(", ");
        }
        lemma_first_name(first, names[0], tail);
        assert forall|i: int| 0 <= i < rest.len() implies plain_name(#[trigger] rest[i]) by {
            assert(plain_name(names[i + 1]));
        }
        lemma_names_of_list(rest, true);
        assert(seq![names[0]] + rest =~= names);
    }
}

/// The attribute that is written for names is read back as those names.
pub proof fn written_derives_are_read_back(names: Seq<Seq<char>>)
    requires
        names.len() > 0,
        forall|i: int| 0 <= i < names.len() ==> plain_name(#[trigger] names[i]),
    ensures
        derives_in(derive_text(names)) == Some(names),
{
    reveal_strlit("#[derive(");
    reveal_strlit(")]");
    let t = derive_text(names);
    let inner = joined(names, ", "@);
    assert(!white_space(t[0]));
    assert(t.last() == ']');
    assert(!white_space(t.last()));
    assert(trimmed_start(t) == t);
    assert(trimmed_end(t) == t);
    assert("#[derive("@ =~= t.take(9));
    assert(")]"@ =~= t.subrange(t.len() - 2, t.len() as int));
    assert(t.subrange(9, t.len() - 2) =~= inner);
    lemma_names_of_list(names, false);
}

/// Whether a node is a struct or enum with a name.
pub open spec fn declares_type(t: Tree, name: Seq<char>) -> bool {
    &&& t.kind == "struct_item"@ || t.kind == "enum_item"@
    &&& exists|c: Tree| #[trigger] is_first_kind(t, "type_identifier"@, c) && c.text == name
}

proof fn lemma_item_name(t: Tree, name: Seq<char>)
    ensures
        item_name(t) == Some(name) <==> declares_type(t, name),
{
    first_of_a_kind_is_found(t, "type_identifier"@);
}

proof fn lemma_item_start(list: Seq<Tree>, name: Seq<char>, from: int, k: int)
    requires
        0 <= from <= k <= list.len(),
        k < list.len() ==> declares_type(list[k], name),
        forall|i: int| from <= i < k ==> !declares_type(#[trigger] list[i], name),
    ensures
        item_start(list, name, from) == if k < list.len() {
            Some(list[k].start)
        } else {
            None
        },
    decreases k - from,
{
    if from < list.len() {
        lemma_item_name(list[from], name);
    }
    if from < k {
        assert(!declares_type(list[from], name));
        lemma_item_start(list, name, from + 1, k);
    }
}

proof fn lemma_index_at(list: Seq<Tree>, k: int, from: int)
    requires
        0 <= from <= k < list.len(),
        list[k].kind != "attribute_item"@,
        forall|i: int| 0 <= i < k ==> (#[trigger] list[i]).start != list[k].start,
    ensures
        index_at(list, list[k].start, from) == Some(k),
    decreases k - from,
{
    if from < k {
        assert(list[from].start != list[k].start);
        lemma_index_at(list, k, from + 1);
    }
}

proof fn lemma_derive_before(list: Seq<Tree>, k: int, j: int)
    requires
        0 <= j <= k <= list.len(),
        forall|i: int|
            j <= i < k ==> (#[trigger] list[i]).kind == "attribute_item"@ && derives_in(
                list[i].text,
            ) is None,
    ensures
        derive_before(list, k) == derive_before(list, j),
    decreases k - j,
{
    if j < k {
        assert(list[k - 1].kind == "attribute_item"@);
        lemma_derive_before(list, k - 1, j);
    }
}

proof fn lemma_item_kinds()
    ensures
        "struct_item"@ != "attribute_item"@,
        "enum_item"@ != "attribute_item"@,
{
    reveal_strlit("struct_item");
    reveal_strlit("enum_item");
    reveal_strlit("attribute_item");
    assert("struct_item"@.len() == 11);
    assert("enum_item"@.len() == 9);
    assert("attribute_item"@.len() == 14);
}

proof fn lemma_merged_from(names: Seq<Seq<char>>, more: Seq<Seq<char>>, n: int)
    requires
        0 <= n <= more.len(),
    ensures
        forall|x: Seq<char>| #[trigger]
            merged(names, more, n).contains(x) ==> names.contains(x) || more.contains(x),
    decreases n,
{
    if n > 0 {
        lemma_merged_from(names, more, n - 1);
        let before = merged(names, more, n - 1);
        assert(more.contains(more[n - 1]));
        assert forall|x: Seq<char>| #[trigger]
            merged(names, more, n).contains(x) implies names.contains(x) || more.contains(x) by {
            if !before.contains(more[n - 1]) {
                let i = choose|i: int|
                    0 <= i < merged(names, more, n).len() && merged(names, more, n)[i] == x;
                if i < before.len() {
                    assert(before[i] == x);
                    assert(before.contains(x));
                }
            }
        }
    }
}

/// Derives are added to the first struct or enum with the name that was asked for. Where a derive
/// attribute stands before it, with none but other attributes between them, that attribute is
/// written anew: with the names that it had, in front, and those that were asked for, and with
/// nothing else.
pub proof fn derives_join_the_attribute_of_the_item(
    ask: DeriveAsk,
    source: Seq<char>,
    root: Tree,
    k: int,
    j: int,
)
    requires
        0 <= j < k < root.children.len(),
        declares_type(root.children[k], ask.target),
        forall|i: int| 0 <= i < k ==> !declares_type(#[trigger] root.children[i], ask.target),
        forall|i: int| 0 <= i < k ==> (#[trigger] root.children[i]).start != root.children[k].start,
        root.children[j].kind == "attribute_item"@,
        derives_in(root.children[j].text) is Some,
        forall|i: int|
            j < i < k ==> (#[trigger] root.children[i]).kind == "attribute_item"@ && derives_in(
                root.children[i].text,
            ) is None,
        char_range(source, root.children[j].start, root.children[j].end),
    ensures
        ({
            let b = bytes(source);
            let attr = root.children[j];
            let had = derives_in(attr.text)->0;
            let r = derived_in(ask, source, root);
            let all = r->Ok_0.derives;
            &&& r is Ok
            &&& had.is_prefix_of(all)
            &&& forall|i: int| 0 <= i < ask.derives.len() ==> all.contains(#[trigger] ask.derives[i])
            &&& forall|x: Seq<char>| #[trigger]
                all.contains(x) ==> had.contains(x) || ask.derives.contains(x)
            &&& bytes(r->Ok_0.new_source) == b.subrange(0, attr.start) + bytes(
                "#[derive("@ + joined(all, ", "@) + ")]"@,
            ) + b.subrange(attr.end, b.len() as int)
        }),
{
    let list = root.children;
    let attr = list[j];
    let had = derives_in(attr.text)->0;
    let n = ask.derives.len() as int;
    let all = merged(had, ask.derives, n);
    lemma_item_kinds();
    lemma_item_start(list, ask.target, 0, k);
    lemma_index_at(list, k, 0);
    lemma_derive_before(list, k, j + 1);
    derives_are_merged(had, ask.derives);
    lemma_merged_from(had, ask.derives, n);
    replacements_change_their_range(source, attr.start, attr.end, derive_text(all));
}

/// Where no derive attribute stands before the item, a new one with the names that were asked for
/// goes on a line of its own before the line of the item, with its indentation.
pub proof fn derives_get_an_attribute_of_their_own(
    ask: DeriveAsk,
    source: Seq<char>,
    root: Tree,
    k: int,
    j: int,
)
    requires
        0 <= j <= k < root.children.len(),
        declares_type(root.children[k], ask.target),
        forall|i: int| 0 <= i < k ==> !declares_type(#[trigger] root.children[i], ask.target),
        forall|i: int| 0 <= i < k ==> (#[trigger] root.children[i]).start != root.children[k].start,
        j > 0 ==> root.children[j - 1].kind != "attribute_item"@,
        forall|i: int|
            j <= i < k ==> (#[trigger] root.children[i]).kind == "attribute_item"@ && derives_in(
                root.children[i].text,
            ) is None,
        char_range(
            source,
            line_start(bytes(source), root.children[k].start),
            line_start(bytes(source), root.children[k].start),
        ),
    ensures
        ({
            let b = bytes(source);
            let at = line_start(b, root.children[k].start);
            let r = derived_in(ask, source, root);
            &&& r is Ok
            &&& r->Ok_0.derives == ask.derives
            &&& bytes(r->Ok_0.new_source) == b.subrange(0, at) + bytes(
                line_indent(source, root.children[k].start) + ("#[derive("@ + joined(
                    ask.derives,
                    ", "@,
                ) + ")]"@) + "\n"@,
            ) + b.subrange(at, b.len() as int)
        }),
{
    let list = root.children;
    let at = line_start(bytes(source), list[k].start);
    lemma_item_kinds();
    lemma_item_start(list, ask.target, 0, k);
    lemma_index_at(list, k, 0);
    lemma_derive_before(list, k, j);
    replacements_change_their_range(
        source,
        at,
        at,
        line_indent(source, list[k].start) + derive_text(ask.derives) + "\n"@,
    );
}

/// Where no struct or enum has the name, the request is refused.
pub proof fn derives_of_nothing_are_refused(ask: DeriveAsk, source: Seq<char>, root: Tree)
    requires
        forall|i: int|
            0 <= i < root.children.len() ==> !declares_type(
                #[trigger] root.children[i],
                ask.target,
            ),
    ensures
        derived_in(ask, source, root) is Err,
{
    lemma_item_start(root.children, ask.target, 0, root.children.len() as int);
}

/// A request names a file, a target and at least one derive, and is refused without them.
pub proof fn derive_requests_are_taken_as_written(params: Json)
    ensures
        match derive_ask(params) {
            Ok(ask) => params.text_field("file"@) == Some(ask.file) && params.text_field("target"@)
                == Some(ask.target) && params.items_field("derives"@) is Some && ask.derives
                == listed(params, "derives"@) && ask.derives.len() > 0,
            Err(_) => params.text_field("file"@) is None || params.text_field("target"@) is None
                || params.items_field("derives"@) is None || listed(params, "derives"@).len() == 0,
        },
{
}

/// A request changes the Rust file that it names: as the file's tree says where there is one, and not
/// at all where the file is no Rust file or has no tree.
pub proof fn derives_are_for_rust(params: Json, t: Target)
    ensures
        match derive_outcome(params, t) {
            Ok(r) => derive_ask(params) is Ok && ({
                let ask = derive_ask(params)->Ok_0;
                &&& t.exists && path_lang(ask.file) == Some(LangId::Rust) && t.content is Ok
                &&& syntax_of((t.content->Ok_0)@, LangId::Rust) is Some
                &&& derived_in(
                    ask,
                    (t.content->Ok_0)@,
                    syntax_of((t.content->Ok_0)@, LangId::Rust)->0,
                ) == Ok::<Derived, RefusalModel>(r)
            }),
            Err(_) => derive_ask(params) is Err || ({
                let ask = derive_ask(params)->Ok_0;
                ||| !t.exists || path_lang(ask.file) != Some(LangId::Rust) || t.content is Err
                ||| syntax_of((t.content->Ok_0)@, LangId::Rust) is None
                ||| derived_in(
                    ask,
                    (t.content->Ok_0)@,
                    syntax_of((t.content->Ok_0)@, LangId::Rust)->0,
                ) is Err
            }),
        },
{
}

} // verus!
