//! Tags of the fields of Go structs.
use vstd::prelude::*;
use vstd::slice::slice_subrange;

use crate::commands::refusal::{
    invalid, need, needed, refuse, refused, reject, verdict, Refusal, RefusalModel,
};
use crate::commands::target::{content_model, Target};
use crate::edit::{
    bytes, char_range, replace_byte_range, replaced, replacements_change_their_range,
};
use crate::json::Json;
use crate::lang::{detect_language, path_lang, LangId};
use crate::models::{group_models, models};
use crate::syntax::{
    add_children_holding, child_texts, first_of_a_kind_is_found, holding, is_first_kind, lacks_kind,
    lemma_children, opt_tree, parse, ref_trees, syntax_of, text_of_child, texts_of_children, trees,
    SyntaxNode, Tree,
};
use crate::text::{
    chars_of, find_char, find_char_from, join, joined, lemma_char_behind, lemma_joined_front,
    lemma_trimmed_start_is_suffix, owned, same, string_of, text2, text3, text4, text5, texts,
    trim_chars, trim_start_chars, trimmed, trimmed_start, white_space,
};

verus! {

/// A request to set a tag.
pub struct TagRequest<'a> {
    pub file: &'a str,
    pub target: &'a str,
    pub field: &'a str,
    pub tag: &'a str,
    pub value: &'a str,
}

/// The model of a `TagRequest`.
pub ghost struct TagAsk {
    pub file: Seq<char>,
    pub target: Seq<char>,
    pub field: Seq<char>,
    pub tag: Seq<char>,
    pub value: Seq<char>,
}

impl<'a> DeepView for TagRequest<'a> {
    type V = TagAsk;

    open spec fn deep_view(&self) -> TagAsk {
        TagAsk {
            file: self.file@,
            target: self.target@,
            field: self.field@,
            tag: self.tag@,
            value: self.value@,
        }
    }
}

/// The request that the parameters make.
pub open spec fn tag_ask(params: Json) -> Result<TagAsk, RefusalModel> {
    match (
        needed(params, "add_struct_tags"@, "file"@),
        needed(params, "add_struct_tags"@, "target"@),
        needed(params, "add_struct_tags"@, "field"@),
        needed(params, "add_struct_tags"@, "tag"@),
        needed(params, "add_struct_tags"@, "value"@),
    ) {
        (Err(e), _, _, _, _) => Err(e),
        (_, Err(e), _, _, _) => Err(e),
        (_, _, Err(e), _, _) => Err(e),
        (_, _, _, Err(e), _) => Err(e),
        (_, _, _, _, Err(e)) => Err(e),
        (Ok(file), Ok(target), Ok(field), Ok(tag), Ok(value)) => Ok(
            TagAsk { file, target, field, tag, value },
        ),
    }
}

/// The request that the parameters make.
pub fn read_tag_request(params: &Json) -> (r: Result<TagRequest<'_>, Refusal>)
    ensures
        match (r, tag_ask(*params)) {
            (Ok(a), Ok(b)) => a.deep_view() == b,
            (Err(e), Err(m)) => e.deep_view() == m,
            _ => false,
        },
{
    let file = match need(params, "add_struct_tags", "file") {
        Ok(s) => s,
        Err(e) => {
            return Err(e);
        },
    };
    let target = match need(params, "add_struct_tags", "target") {
        Ok(s) => s,
        Err(e) => {
            return Err(e);
        },
    };
    let field = match need(params, "add_struct_tags", "field") {
        Ok(s) => s,
        Err(e) => {
            return Err(e);
        },
    };
    let tag = match need(params, "add_struct_tags", "tag") {
        Ok(s) => s,
        Err(e) => {
            return Err(e);
        },
    };
    let value = match need(params, "add_struct_tags", "value") {
        Ok(s) => s,
        Err(e) => {
            return Err(e);
        },
    };
    Ok(TagRequest { file, target, field, tag, value })
}

/// The text of the Go file that a request names.
pub open spec fn go_source(file: Seq<char>, t: Target) -> Result<Seq<char>, RefusalModel> {
    if !t.exists {
        Err(refused("file_not_found"@, "add_struct_tags: file not found: "@ + file))
    } else {
        match path_lang(file) {
            None => Err(invalid("add_struct_tags: unsupported file type"@)),
            Some(lang) => if lang != LangId::Go {
                Err(invalid("add_struct_tags: only Go files are supported"@))
            } else {
                match content_model(t) {
                    Ok(s) => Ok(s),
                    Err(e) => Err(
                        refused("file_not_found"@, "add_struct_tags: cannot read file: "@ + e),
                    ),
                }
            },
        }
    }
}

fn read_go_source<'a>(file: &str, target: &'a Target) -> (r: Result<&'a str, Refusal>)
    ensures
        match (r, go_source(file@, *target)) {
            (Ok(a), Ok(b)) => a@ == b,
            (Err(e), Err(m)) => e.deep_view() == m,
            _ => false,
        },
{
    if !target.exists {
        return Err(refuse("file_not_found", text2("add_struct_tags: file not found: ", file)));
    }
    match detect_language(file) {
        None => {
            return Err(reject("add_struct_tags: unsupported file type"));
        },
        Some(lang) => {
            if lang != LangId::Go {
                return Err(reject("add_struct_tags: only Go files are supported"));
            }
        },
    }
    match &target.content {
        Ok(s) => Ok(s.as_str()),
        Err(e) => Err(
            refuse("file_not_found", text2("add_struct_tags: cannot read file: ", e.as_str())),
        ),
    }
}

/// The named type declarations of a file, of the first `n` top-level nodes.
pub open spec fn type_specs(list: Seq<Tree>, n: int) -> Seq<Tree>
    decreases n,
{
    if n <= 0 || n > list.len() {
        Seq::empty()
    } else {
        let before = type_specs(list, n - 1);
        if list[n - 1].kind == "type_declaration"@ {
            before + holding(list[n - 1].children, "type_spec"@, "type_identifier"@)
        } else {
            before
        }
    }
}

/// The named type declarations of a file.
pub fn list_type_specs<'a>(root: &'a SyntaxNode) -> (r: Vec<&'a SyntaxNode>)
    ensures
        ref_trees(r@) == type_specs(root@.children, root@.children.len() as int),
{
    broadcast use lemma_children;

    let mut out: Vec<&'a SyntaxNode> = Vec::new();
    let mut i: usize = 0;
    assert(ref_trees(out@) =~= Seq::<Tree>::empty());
    while i < root.children.len()
        invariant
            i <= root.children.len(),
            root@.children == trees(root.children@),
            ref_trees(out@) == type_specs(root@.children, i as int),
        decreases root.children.len() - i,
    {
        let child = &root.children[i];
        assert(root@.children[i as int] == child@);
        if child.is_kind("type_declaration") {
            add_children_holding(child, "type_spec", "type_identifier", &mut out);
        }
        i = i + 1;
    }
    out
}

/// The list of fields of a struct type.
pub open spec fn struct_body(spec_node: Tree) -> Option<Tree> {
    match spec_node.child_of_kind("struct_type"@) {
        Some(st) => st.child_of_kind("field_declaration_list"@),
        None => None,
    }
}

/// The fields of the first struct with a name among the types from `from` on.
pub open spec fn body_named(specs: Seq<Tree>, name: Seq<char>, from: int) -> Option<Tree>
    decreases specs.len() - from,
{
    if from < 0 || from >= specs.len() {
        None
    } else if text_of_child(specs[from], "type_identifier"@) == name && struct_body(
        specs[from],
    ) is Some {
        struct_body(specs[from])
    } else {
        body_named(specs, name, from + 1)
    }
}

fn find_body<'a>(specs: &Vec<&'a SyntaxNode>, name: &str) -> (r: Option<&'a SyntaxNode>)
    ensures
        opt_tree(r) == body_named(ref_trees(specs@), name@, 0),
{
    let ghost all = ref_trees(specs@);
    let mut i: usize = 0;
    while i < specs.len()
        invariant
            i <= specs.len(),
            all == ref_trees(specs@),
            body_named(all, name@, 0) == body_named(all, name@, i as int),
        decreases specs.len() - i,
    {
        let s = specs[i];
        assert(all[i as int] == s@);
        let named = match s.child_by_kind("type_identifier") {
            Some(n) => same(n.text.as_str(), name),
            None => same("", name),
        };
        proof {
            reveal_strlit("");
            assert(""@ =~= Seq::<char>::empty());
        }
        if named {
            match s.child_by_kind("struct_type") {
                Some(st) => {
                    match st.child_by_kind("field_declaration_list") {
                        Some(body) => {
                            return Some(body);
                        },
                        None => {},
                    }
                },
                None => {},
            }
        }
        i = i + 1;
    }
    None
}

/// The named fields of a struct.
pub open spec fn fields_of(body: Tree) -> Seq<Tree> {
    holding(body.children, "field_declaration"@, "field_identifier"@)
}

/// The first field with a name from `from` on.
pub open spec fn field_named(fields: Seq<Tree>, name: Seq<char>, from: int) -> Option<Tree>
    decreases fields.len() - from,
{
    if from < 0 || from >= fields.len() {
        None
    } else if text_of_child(fields[from], "field_identifier"@) == name {
        Some(fields[from])
    } else {
        field_named(fields, name, from + 1)
    }
}

fn find_field<'a>(fields: &Vec<&'a SyntaxNode>, name: &str) -> (r: Option<&'a SyntaxNode>)
    ensures
        opt_tree(r) == field_named(ref_trees(fields@), name@, 0),
{
    let ghost all = ref_trees(fields@);
    let mut i: usize = 0;
    while i < fields.len()
        invariant
            i <= fields.len(),
            all == ref_trees(fields@),
            field_named(all, name@, 0) == field_named(all, name@, i as int),
        decreases fields.len() - i,
    {
        let f = fields[i];
        assert(all[i as int] == f@);
        let named = match f.child_by_kind("field_identifier") {
            Some(n) => same(n.text.as_str(), name),
            None => same("", name),
        };
        proof {
            reveal_strlit("");
            assert(""@ =~= Seq::<char>::empty());
        }
        if named {
            return Some(f);
        }
        i = i + 1;
    }
    None
}

/// The names in a list, or a word about there being none.
pub open spec fn availability(names: Seq<Seq<char>>, none: Seq<char>) -> Seq<char> {
    if names.len() == 0 {
        none
    } else {
        ", available: ["@ + joined(names, ", "@) + "]"@
    }
}

fn available(names: &Vec<String>, none: &str) -> (r: String)
    ensures
        r@ == availability(texts(names@), none@),
{
    assert(texts(names@).len() == names@.len());
    if names.len() == 0 {
        owned(none)
    } else {
        text3(", available: [", join(names, ", ").as_str(), "]")
    }
}

/// The field of a struct that a request speaks of.
pub open spec fn field_found(root: Tree, ask: TagAsk) -> Result<Tree, RefusalModel> {
    let specs = type_specs(root.children, root.children.len() as int);
    match body_named(specs, ask.target, 0) {
        None => Err(
            refused(
                "target_not_found"@,
                "add_struct_tags: struct '"@ + ask.target + "' not found in "@ + ask.file
                    + availability(
                    texts_of_children(specs, "type_identifier"@),
                    " (no structs found)"@,
                ),
            ),
        ),
        Some(body) => match field_named(fields_of(body), ask.field, 0) {
            Some(f) => Ok(f),
            None => Err(
                refused(
                    "field_not_found"@,
                    "add_struct_tags: field '"@ + ask.field + "' not found in struct '"@
                        + ask.target + "'"@ + availability(
                        texts_of_children(fields_of(body), "field_identifier"@),
                        " (no fields found)"@,
                    ),
                ),
            ),
        },
    }
}

fn find_struct_field<'a>(root: &'a SyntaxNode, ask: &TagRequest<'_>) -> (r: Result<
    &'a SyntaxNode,
    Refusal,
>)
    ensures
        match (r, field_found(root@, ask.deep_view())) {
            (Ok(a), Ok(b)) => a@ == b,
            (Err(e), Err(m)) => e.deep_view() == m,
            _ => false,
        },
{
    let specs = list_type_specs(root);
    let body = match find_body(&specs, ask.target) {
        Some(b) => b,
        None => {
            let names = child_texts(&specs, "type_identifier");
            return Err(
                refuse(
                    "target_not_found",
                    text5(
                        "add_struct_tags: struct '",
                        ask.target,
                        "' not found in ",
                        ask.file,
                        available(&names, " (no structs found)").as_str(),
                    ),
                ),
            );
        },
    };
    let mut fields: Vec<&'a SyntaxNode> = Vec::new();
    assert(ref_trees(fields@) + fields_of(body@) =~= fields_of(body@));
    add_children_holding(body, "field_declaration", "field_identifier", &mut fields);
    match find_field(&fields, ask.field) {
        Some(f) => Ok(f),
        None => {
            let names = child_texts(&fields, "field_identifier");
            let mut m = text5(
                "add_struct_tags: field '",
                ask.field,
                "' not found in struct '",
                ask.target,
                "'",
            );
            m.append(available(&names, " (no fields found)").as_str());
            Err(refuse("field_not_found", m))
        },
    }
}

/// Where the last of the first `n` children of a field ends that is no tag, from the field's
/// start on.
pub open spec fn type_end(start: int, list: Seq<Tree>, n: int) -> int
    decreases n,
{
    if n <= 0 || n > list.len() {
        start
    } else {
        let before = type_end(start, list, n - 1);
        if list[n - 1].kind != "raw_string_literal"@ && list[n - 1].end > before {
            list[n - 1].end
        } else {
            before
        }
    }
}

fn find_type_end(field: &SyntaxNode) -> (r: usize)
    ensures
        r == type_end(field@.start, field@.children, field@.children.len() as int),
{
    broadcast use lemma_children;

    let mut last: usize = field.start_byte;
    let mut i: usize = 0;
    while i < field.children.len()
        invariant
            i <= field.children.len(),
            field@.children == trees(field.children@),
            last == type_end(field@.start, field@.children, i as int),
        decreases field.children.len() - i,
    {
        let child = &field.children[i];
        assert(field@.children[i as int] == child@);
        if !child.is_kind("raw_string_literal") && child.end_byte > last {
            last = child.end_byte;
        }
        i = i + 1;
    }
    last
}

/// A quoted value from its first character on, and what stands behind its closing quote. A
/// character behind a backslash belongs to the value.
pub open spec fn value_in(s: Seq<char>) -> (Seq<char>, Seq<char>)
    decreases s.len(),
{
    if s.len() == 0 {
        (Seq::empty(), Seq::empty())
    } else if s[0] == '\\' {
        if s.len() > 1 {
            let rest = value_in(s.skip(2));
            (seq![s[0], s[1]] + rest.0, rest.1)
        } else {
            (Seq::empty(), Seq::empty())
        }
    } else if s[0] == '"' {
        (Seq::empty(), s.skip(1))
    } else {
        let rest = value_in(s.skip(1));
        (seq![s[0]] + rest.0, rest.1)
    }
}

/// What stands behind a value is no longer than the text.
pub proof fn lemma_value_in(s: Seq<char>)
    ensures
        value_in(s).1.len() <= s.len(),
    decreases s.len(),
{
    if s.len() > 0 {
        if s[0] == '\\' && s.len() > 1 {
            lemma_value_in(s.skip(2));
        } else if s[0] != '\\' && s[0] != '"' {
            lemma_value_in(s.skip(1));
        }
    }
}

/// The tags of a text that does not start with white space: keys up to a colon, each with
/// a quoted value. What is no tag ends the list.
pub open spec fn tags_in(s: Seq<char>) -> Seq<(Seq<char>, Seq<char>)>
    decreases s.len(),
{
    if s.len() == 0 {
        Seq::empty()
    } else {
        match find_char_from(s, ':', 0) {
            None => Seq::empty(),
            Some(p) => {
                if p < 0 || p + 1 >= s.len() || s[p + 1] != '"' {
                    Seq::empty()
                } else {
                    proof {
                        lemma_value_in(s.skip(p + 2));
                        lemma_trimmed_start_is_suffix(value_in(s.skip(p + 2)).1);
                    }
                    let v = value_in(s.skip(p + 2));
                    seq![(trimmed(s.take(p)), v.0)] + tags_in(trimmed_start(v.1))
                }
            },
        }
    }
}

/// The tags of a struct tag's text.
pub open spec fn struct_tags(s: Seq<char>) -> Seq<(Seq<char>, Seq<char>)> {
    tags_in(trimmed(s))
}

fn read_value(c: &[char], from: usize) -> (r: (String, usize))
    requires
        from <= c@.len(),
    ensures
        from <= r.1 <= c@.len(),
        value_in(c@.skip(from as int)) == (r.0@, c@.skip(r.1 as int)),
{
    let mut out = String::new();
    let mut i: usize = from;
    let ghost all = value_in(c@.skip(from as int));
    assert(out@ + all.0 =~= all.0);
    while i < c.len()
        invariant
            from <= i <= c@.len(),
            all == value_in(c@.skip(from as int)),
            all.0 == out@ + value_in(c@.skip(i as int)).0,
            all.1 == value_in(c@.skip(i as int)).1,
        decreases c@.len() - i,
    {
        let ghost rest = c@.skip(i as int);
        let ghost before = out@;
        assert(rest[0] == c@[i as int]);
        if c[i] == '\\' {
            if i + 1 < c.len() {
                assert(rest[1] == c@[i + 1]);
                assert(rest.skip(2) =~= c@.skip(i + 2));
                out.push('\\');
                out.push(c[i + 1]);
                assert(before + (seq![rest[0], rest[1]] + value_in(rest.skip(2)).0) =~= out@
                    + value_in(c@.skip(i + 2)).0);
                i = i + 2;
            } else {
                assert(out@ + Seq::<char>::empty() =~= out@);
                assert(c@.skip(c@.len() as int) =~= Seq::<char>::empty());
                return (out, c.len());
            }
        } else if c[i] == '"' {
            assert(rest.skip(1) =~= c@.skip(i + 1));
            assert(out@ + Seq::<char>::empty() =~= out@);
            return (out, i + 1);
        } else {
            assert(rest.skip(1) =~= c@.skip(i + 1));
            out.push(c[i]);
            assert(before + (seq![rest[0]] + value_in(rest.skip(1)).0) =~= out@ + value_in(
                c@.skip(i + 1),
            ).0);
            i = i + 1;
        }
    }
    assert(c@.skip(i as int) =~= Seq::<char>::empty());
    assert(out@ + Seq::<char>::empty() =~= out@);
    (out, i)
}

/// The tags of a struct tag's text.
pub fn parse_struct_tags(tag_inner: &str) -> (r: Vec<(String, String)>)
    ensures
        models(r@) == struct_tags(tag_inner@),
{
    broadcast use group_models;

    let raw = chars_of(tag_inner);
    let s = trim_chars(raw.as_slice());
    let mut tags: Vec<(String, String)> = Vec::new();
    let mut at: usize = 0;
    let ghost all = tags_in(s@);
    assert(s@.skip(0) =~= s@);
    assert(models(tags@) + all =~= all);
    while at < s.len()
        invariant
            at <= s@.len(),
            s@ == trimmed(tag_inner@),
            all == tags_in(s@),
            all == models(tags@) + tags_in(s@.skip(at as int)),
        decreases s@.len() - at,
    {
        let rest = slice_subrange(s, at, s.len());
        assert(rest@ =~= s@.skip(at as int));
        let p = match find_char(rest, ':', 0) {
            Some(p) => p,
            None => {
                assert(models(tags@) + Seq::<(Seq<char>, Seq<char>)>::empty() =~= models(tags@));
                return tags;
            },
        };
        if p + 1 >= rest.len() || rest[p + 1] != '"' {
            assert(models(tags@) + Seq::<(Seq<char>, Seq<char>)>::empty() =~= models(tags@));
            return tags;
        }
        let head = slice_subrange(rest, 0, p);
        assert(head@ =~= rest@.take(p as int));
        let key = string_of(trim_chars(head));
        let (value, next) = read_value(rest, p + 2);
        let tail = slice_subrange(rest, next, rest.len());
        let more = trim_start_chars(tail);
        proof {
            assert(tail@ =~= rest@.skip(next as int));
            lemma_trimmed_start_is_suffix(tail@);
            let skipped = s@.len() - more@.len();
            assert(s@.skip(skipped as int) =~= more@);
        }
        let ghost before = models(tags@);
        let pair = (key, value);
        let ghost m = pair.deep_view();
        tags.push(pair);
        assert(models(tags@) == before.push(m));
        assert(before + (seq![m] + tags_in(more@)) =~= before.push(m) + tags_in(more@));
        at = s.len() - more.len();
    }
    assert(s@.skip(at as int) =~= Seq::<char>::empty());
    assert(models(tags@) + Seq::<(Seq<char>, Seq<char>)>::empty() =~= models(tags@));
    tags
}

/// One tag as it is written.
pub open spec fn tag_text(t: (Seq<char>, Seq<char>)) -> Seq<char> {
    t.0 + ":\""@ + t.1 + "\""@
}

/// Tags as they are written, with a space between every two.
pub open spec fn tags_text(tags: Seq<(Seq<char>, Seq<char>)>) -> Seq<char> {
    joined(tags.map_values(|t: (Seq<char>, Seq<char>)| tag_text(t)), " "@)
}

/// Tags as they are written.
pub fn format_struct_tags(tags: &Vec<(String, String)>) -> (r: String)
    ensures
        r@ == tags_text(models(tags@)),
{
    let mut parts: Vec<String> = Vec::new();
    let mut i: usize = 0;
    while i < tags.len()
        invariant
            i <= tags.len(),
            parts@.len() == i,
            forall|k: int|
                0 <= k < i ==> (#[trigger] parts@[k])@ == tag_text((tags@[k].0@, tags@[k].1@)),
        decreases tags.len() - i,
    {
        parts.push(text4(tags[i].0.as_str(), ":\"", tags[i].1.as_str(), "\""));
        i = i + 1;
    }
    proof {
        let want = models(tags@).map_values(|t: (Seq<char>, Seq<char>)| tag_text(t));
        assert forall|k: int| 0 <= k < want.len() implies texts(parts@)[k] == want[k] by {
            assert(models(tags@)[k] == (tags@[k].0@, tags@[k].1@));
        }
        assert(texts(parts@) =~= want);
    }
    join(&parts, " ")
}

/// The index of the first tag with a key, or the number of tags.
pub open spec fn tag_index(tags: Seq<(Seq<char>, Seq<char>)>, key: Seq<char>, from: int) -> int
    decreases tags.len() - from,
{
    if from < 0 || from >= tags.len() {
        tags.len() as int
    } else if tags[from].0 == key {
        from
    } else {
        tag_index(tags, key, from + 1)
    }
}

/// Tags with the first of a key changed, or with the key put behind the others.
pub open spec fn with_tag(
    tags: Seq<(Seq<char>, Seq<char>)>,
    key: Seq<char>,
    value: Seq<char>,
) -> Seq<(Seq<char>, Seq<char>)> {
    let i = tag_index(tags, key, 0);
    if 0 <= i < tags.len() {
        tags.update(i, (key, value))
    } else {
        tags.push((key, value))
    }
}

fn set_tag(tags: &mut Vec<(String, String)>, key: &str, value: &str)
    ensures
        models(final(tags)@) == with_tag(models(old(tags)@), key@, value@),
{
    broadcast use group_models;

    let ghost all = models(tags@);
    let mut i: usize = 0;
    while i < tags.len()
        invariant
            i <= tags.len(),
            all == models(tags@),
            all == models(old(tags)@),
            tag_index(all, key@, 0) == tag_index(all, key@, i as int),
        decreases tags.len() - i,
    {
        assert(all[i as int] == tags@[i as int].deep_view());
        if same(tags[i].0.as_str(), key) {
            let pair = (owned(key), owned(value));
            let ghost m = pair.deep_view();
            tags.set(i, pair);
            assert(models(tags@) =~= all.update(i as int, m));
            return ;
        }
        i = i + 1;
    }
    let pair = (owned(key), owned(value));
    assert(pair.deep_view() == (key@, value@));
    tags.push(pair);
}

/// A tag without the backquotes round it.
pub open spec fn unquoted(text: Seq<char>) -> Seq<char> {
    if text.len() >= 2 {
        text.subrange(1, text.len() - 1)
    } else {
        Seq::empty()
    }
}

/// A file with a tag set, and the whole tag of the field.
pub struct TagEdit {
    pub new_source: String,
    pub tag_string: String,
}

/// The model of a `TagEdit`.
pub ghost struct Tagged {
    pub new_source: Seq<char>,
    pub tag_string: Seq<char>,
}

impl DeepView for TagEdit {
    type V = Tagged;

    open spec fn deep_view(&self) -> Tagged {
        Tagged { new_source: self.new_source@, tag_string: self.tag_string@ }
    }
}

/// The source with a tag of a field set: in the tag that the field has, or in a new one behind
/// its type.
pub open spec fn tagged(source: Seq<char>, field: Tree, key: Seq<char>, value: Seq<char>) -> Result<
    Tagged,
    RefusalModel,
> {
    let (tag, start, end, text) = match field.child_of_kind("raw_string_literal"@) {
        Some(old_tag) => {
            let tag = "`"@ + tags_text(with_tag(struct_tags(unquoted(old_tag.text)), key, value))
                + "`"@;
            (tag, old_tag.start, old_tag.end, tag)
        },
        None => {
            let at = type_end(field.start, field.children, field.children.len() as int);
            let tag = "`"@ + key + ":\""@ + value + "\"`"@;
            (tag, at, at, " "@ + tag)
        },
    };
    match replaced(source, start, end, text) {
        Ok(new_source) => Ok(Tagged { new_source, tag_string: tag }),
        Err(f) => Err(RefusalModel::Error(f)),
    }
}

/// The source with a tag of a field set.
pub fn tag_field(source: &str, field: &SyntaxNode, key: &str, value: &str) -> (r: Result<
    TagEdit,
    Refusal,
>)
    ensures
        verdict(r) == tagged(source@, field@, key@, value@),
{
    match field.child_by_kind("raw_string_literal") {
        Some(old_tag) => {
            let c = chars_of(old_tag.text.as_str());
            let inner = if c.len() >= 2 {
                string_of(slice_subrange(c.as_slice(), 1, c.len() - 1))
            } else {
                String::new()
            };
            assert(inner@ =~= unquoted(old_tag@.text));
            let mut tags = parse_struct_tags(inner.as_str());
            set_tag(&mut tags, key, value);
            let tag = text3("`", format_struct_tags(&tags).as_str(), "`");
            match replace_byte_range(source, old_tag.start_byte, old_tag.end_byte, tag.as_str()) {
                Ok(new_source) => Ok(TagEdit { new_source, tag_string: tag }),
                Err(f) => Err(Refusal::Error(f)),
            }
        },
        None => {
            let tag = text5("`", key, ":\"", value, "\"`");
            let at = find_type_end(field);
            match replace_byte_range(source, at, at, text2(" ", tag.as_str()).as_str()) {
                Ok(new_source) => Ok(TagEdit { new_source, tag_string: tag }),
                Err(f) => Err(Refusal::Error(f)),
            }
        },
    }
}

/// What a request makes of a Go file with a syntax tree.
pub open spec fn tagged_in(ask: TagAsk, source: Seq<char>, root: Tree) -> Result<
    Tagged,
    RefusalModel,
> {
    match field_found(root, ask) {
        Err(e) => Err(e),
        Ok(field) => tagged(source, field, ask.tag, ask.value),
    }
}

/// What a request makes of a Go file with a syntax tree.
pub fn tag_in_tree(ask: &TagRequest<'_>, source: &str, root: &SyntaxNode) -> (r: Result<
    TagEdit,
    Refusal,
>)
    ensures
        verdict(r) == tagged_in(ask.deep_view(), source@, root@),
{
    match find_struct_field(root, ask) {
        Err(e) => Err(e),
        Ok(field) => tag_field(source, field, ask.tag, ask.value),
    }
}

/// What a request makes of the file that it names.
pub open spec fn tag_outcome(params: Json, t: Target) -> Result<Tagged, RefusalModel> {
    match tag_ask(params) {
        Err(e) => Err(e),
        Ok(ask) => match go_source(ask.file, t) {
            Err(e) => Err(e),
            Ok(source) => match syntax_of(source, LangId::Go) {
                None => Err(
                    refused("parse_error"@, "add_struct_tags: parse failed for "@ + ask.file),
                ),
                Some(root) => tagged_in(ask, source, root),
            },
        },
    }
}

/// What a request makes of the file that it names.
pub fn handle_add_struct_tags(params: &Json, target: &Target) -> (r: Result<TagEdit, Refusal>)
    ensures
        verdict(r) == tag_outcome(*params, *target),
{
    let ask = match read_tag_request(params) {
        Ok(a) => a,
        Err(e) => {
            return Err(e);
        },
    };
    let source = match read_go_source(ask.file, target) {
        Ok(s) => s,
        Err(e) => {
            return Err(e);
        },
    };
    match parse(source, LangId::Go) {
        None => Err(
            refuse("parse_error", text2("add_struct_tags: parse failed for ", ask.file)),
        ),
        Some(root) => tag_in_tree(&ask, source, &root),
    }
}

/// A key that can be read back: without a colon, and without white space round it.
pub open spec fn clean_key(k: Seq<char>) -> bool {
    &&& !k.contains(':')
    &&& k.len() > 0 ==> !white_space(k[0]) && !white_space(k.last())
}

/// A value that can be read back: every quote in it stands behind a backslash, and no
/// backslash ends it.
pub open spec fn closed_value(v: Seq<char>) -> bool
    decreases v.len(),
{
    if v.len() == 0 {
        true
    } else if v[0] == '"' {
        false
    } else if v[0] == '\\' {
        v.len() > 1 && closed_value(v.skip(2))
    } else {
        closed_value(v.skip(1))
    }
}

proof fn lemma_closed_value(v: Seq<char>, rest: Seq<char>)
    requires
        closed_value(v),
    ensures
        value_in(v + "\""@ + rest) == (v, rest),
    decreases v.len(),
{
    reveal_strlit("\"");
    let s = v + "\""@ + rest;
    if v.len() == 0 {
        assert(s[0] == '"');
        assert(s.skip(1) =~= rest);
        assert(v =~= Seq::<char>::empty());
    } else if v[0] == '\\' {
        lemma_closed_value(v.skip(2), rest);
        assert(s.skip(2) =~= v.skip(2) + "\""@ + rest);
        assert(seq![v[0], v[1]] + v.skip(2) =~= v);
    } else {
        lemma_closed_value(v.skip(1), rest);
        assert(s.skip(1) =~= v.skip(1) + "\""@ + rest);
        assert(seq![v[0]] + v.skip(1) =~= v);
    }
}

proof fn lemma_clean_is_trimmed(s: Seq<char>)
    requires
        s.len() > 0 ==> !white_space(s[0]) && !white_space(s.last()),
    ensures
        trimmed_start(s) == s,
        trimmed(s) == s,
{
}

proof fn lemma_tags_text_front(tags: Seq<(Seq<char>, Seq<char>)>)
    requires
        tags.len() > 0,
    ensures
        tags_text(tags) == tag_text(tags[0]) + (if tags.len() == 1 {
            Seq::empty()
        } else {
            " "@ + tags_text(tags.drop_first())
        }),
{
    let parts = tags.map_values(|t: (Seq<char>, Seq<char>)| tag_text(t));
    if tags.len() == 1 {
        assert(tags_text(tags) =~= tag_text(tags[0]) + Seq::<char>::empty());
    } else {
        lemma_joined_front(parts, " "@);
        let more = tags.drop_first().map_values(|t: (Seq<char>, Seq<char>)| tag_text(t));
        assert(parts.drop_first() =~= more);
        assert(tags_text(tags) =~= tag_text(tags[0]) + (" "@ + tags_text(tags.drop_first())));
    }
}

proof fn lemma_tags_text_ends(tags: Seq<(Seq<char>, Seq<char>)>)
    requires
        tags.len() > 0,
        forall|i: int| 0 <= i < tags.len() ==> clean_key((#[trigger] tags[i]).0),
    ensures
        tags_text(tags).len() > 0,
        !white_space(tags_text(tags)[0]),
        !white_space(tags_text(tags).last()),
    decreases tags.len(),
{
    reveal_strlit("\"");
    reveal_strlit(":\"");
    lemma_tags_text_front(tags);
    assert(clean_key(tags[0].0));
    let first = tag_text(tags[0]);
    if tags[0].0.len() > 0 {
        assert(tags_text(tags)[0] == tags[0].0[0]);
    } else {
        assert(tags_text(tags)[0] == ':');
    }
    assert(first.last() == '"');
    if tags.len() > 1 {
        let rest = tags.drop_first();
        assert forall|i: int| 0 <= i < rest.len() implies clean_key((#[trigger] rest[i]).0) by {
            assert(rest[i] == tags[i + 1]);
        }
        lemma_tags_text_ends(rest);
        assert(tags_text(tags).last() == tags_text(rest).last());
    } else {
        assert(tags_text(tags).last() == first.last());
    }
}

proof fn lemma_tags_in_text(tags: Seq<(Seq<char>, Seq<char>)>)
    requires
        tags.len() > 0,
        forall|i: int|
            0 <= i < tags.len() ==> clean_key((#[trigger] tags[i]).0) && closed_value(tags[i].1),
    ensures
        tags_in(tags_text(tags)) == tags,
    decreases tags.len(),
{
    reveal_strlit("\"");
    reveal_strlit(":\"");
    reveal_strlit(" ");
    let s = tags_text(tags);
    let key = tags[0].0;
    let value = tags[0].1;
    assert(clean_key(key) && closed_value(value));
    lemma_tags_text_front(tags);
    let tail = if tags.len() == 1 {
        Seq::empty()
    } else {
        " "@ + tags_text(tags.drop_first())
    };
    let behind = ":\""@ + value + "\""@ + tail;
    assert(s =~= key + behind);
    lemma_char_behind(key, ':', behind);
    assert(s.take(key.len() as int) =~= key);
    assert(s.skip(key.len() as int + 2) =~= value + "\""@ + tail);
    lemma_closed_value(value, tail);
    lemma_clean_is_trimmed(key);
    assert(s[key.len() as int + 1] == '"');
    assert(tags_in(s) == seq![(key, value)] + tags_in(trimmed_start(tail)));
    if tags.len() == 1 {
        assert(trimmed_start(tail) == tail);
        assert(tags_in(tail) =~= Seq::<(Seq<char>, Seq<char>)>::empty());
        assert(tags =~= seq![tags[0]] + Seq::<(Seq<char>, Seq<char>)>::empty());
    } else {
        let rest = tags.drop_first();
        assert forall|i: int| 0 <= i < rest.len() implies clean_key((#[trigger] rest[i]).0)
            && closed_value(rest[i].1) by {
            assert(rest[i] == tags[i + 1]);
        }
        lemma_tags_in_text(rest);
        lemma_tags_text_ends(rest);
        lemma_clean_is_trimmed(tags_text(rest));
        assert(tail[0] == ' ');
        assert(tail.drop_first() =~= tags_text(rest));
        assert(tags =~= seq![tags[0]] + rest);
    }
}

/// Tags that are written are read back as they were.
pub proof fn written_tags_are_read_back(tags: Seq<(Seq<char>, Seq<char>)>)
    requires
        forall|i: int|
            0 <= i < tags.len() ==> clean_key((#[trigger] tags[i]).0) && closed_value(tags[i].1),
    ensures
        struct_tags(tags_text(tags)) == tags,
{
    if tags.len() == 0 {
        assert(tags_text(tags) =~= Seq::<char>::empty());
        assert(struct_tags(tags_text(tags)) =~= tags);
    } else {
        lemma_tags_text_ends(tags);
        lemma_clean_is_trimmed(tags_text(tags));
        lemma_tags_in_text(tags);
    }
}

/// A tag that is set is there, and no other tag changes.
pub proof fn set_tag_is_there(
    tags: Seq<(Seq<char>, Seq<char>)>,
    key: Seq<char>,
    value: Seq<char>,
    other: Seq<char>,
)
    requires
        other != key,
    ensures
        with_tag(tags, key, value).contains((key, value)),
        forall|v: Seq<char>|
            #[trigger] with_tag(tags, key, value).contains((other, v)) <==> tags.contains(
                (other, v),
            ),
{
    lemma_tag_index(tags, key, 0);
    let i = tag_index(tags, key, 0);
    let new = with_tag(tags, key, value);
    if i < tags.len() {
        assert(new[i] == (key, value));
    } else {
        assert(new[tags.len() as int] == (key, value));
    }
    assert forall|v: Seq<char>| #[trigger] new.contains((other, v)) <==> tags.contains(
        (other, v),
    ) by {
        if new.contains((other, v)) {
            let k = choose|k: int| 0 <= k < new.len() && new[k] == (other, v);
            assert(tags[k] == (other, v));
        }
        if tags.contains((other, v)) {
            let k = choose|k: int| 0 <= k < tags.len() && tags[k] == (other, v);
            assert(new[k] == (other, v));
        }
    }
}

proof fn lemma_tag_index(tags: Seq<(Seq<char>, Seq<char>)>, key: Seq<char>, from: int)
    requires
        0 <= from <= tags.len(),
    ensures
        from <= tag_index(tags, key, from) <= tags.len(),
        tag_index(tags, key, from) < tags.len() ==> tags[tag_index(tags, key, from)].0 == key,
    decreases tags.len() - from,
{
    if from < tags.len() && tags[from].0 != key {
        lemma_tag_index(tags, key, from + 1);
    }
}

/// A tag that is set takes the place of the first with its key; where there is none it goes behind
/// the others. The others stay where they are.
pub proof fn tags_are_set_in_place(
    tags: Seq<(Seq<char>, Seq<char>)>,
    key: Seq<char>,
    value: Seq<char>,
    k: int,
)
    requires
        0 <= k <= tags.len(),
        k < tags.len() ==> tags[k].0 == key,
        forall|i: int| 0 <= i < k ==> (#[trigger] tags[i]).0 != key,
    ensures
        ({
            let r = with_tag(tags, key, value);
            &&& k < tags.len() ==> r.len() == tags.len()
            &&& k == tags.len() ==> r.len() == tags.len() + 1
            &&& r[k] == (key, value)
            &&& forall|i: int| 0 <= i < tags.len() && i != k ==> r[i] == #[trigger] tags[i]
        }),
{
    lemma_tag_index_is(tags, key, 0, k);
}

proof fn lemma_tag_index_is(
    tags: Seq<(Seq<char>, Seq<char>)>,
    key: Seq<char>,
    from: int,
    k: int,
)
    requires
        0 <= from <= k <= tags.len(),
        k < tags.len() ==> tags[k].0 == key,
        forall|i: int| 0 <= i < k ==> (#[trigger] tags[i]).0 != key,
    ensures
        tag_index(tags, key, from) == k,
    decreases k - from,
{
    if from < k {
        assert(tags[from].0 != key);
        lemma_tag_index_is(tags, key, from + 1, k);
    }
}

/// Whether a node is a child of another.
pub open spec fn is_child(t: Tree, c: Tree) -> bool {
    t.children.contains(c)
}

/// Whether a node is the declaration of a type with a name at the top of a file.
pub open spec fn declares_named(root: Tree, spec_node: Tree, name: Seq<char>) -> bool {
    &&& exists|decl: Tree| #[trigger]
        is_child(root, decl) && decl.kind == "type_declaration"@ && is_child(decl, spec_node)
    &&& spec_node.kind == "type_spec"@
    &&& exists|c: Tree| #[trigger]
        is_first_kind(spec_node, "type_identifier"@, c) && c.text == name
}

/// Whether a node is the list of fields of a struct type.
pub open spec fn lists_fields(spec_node: Tree, body: Tree) -> bool {
    exists|st: Tree| #[trigger]
        is_first_kind(spec_node, "struct_type"@, st) && is_first_kind(
            st,
            "field_declaration_list"@,
            body,
        )
}

/// Whether a node is a field with a name in a list of fields.
pub open spec fn declares_field(body: Tree, f: Tree, name: Seq<char>) -> bool {
    &&& is_child(body, f)
    &&& f.kind == "field_declaration"@
    &&& exists|c: Tree| #[trigger] is_first_kind(f, "field_identifier"@, c) && c.text == name
}

proof fn lemma_holding(list: Seq<Tree>, kind: Seq<char>, inner: Seq<char>, t: Tree)
    ensures
        holding(list, kind, inner).contains(t) <==> list.contains(t) && t.kind == kind
            && t.child_of_kind(inner) is Some,
    decreases list.len(),
{
    if list.len() > 0 {
        let less = list.drop_last();
        let rest = holding(less, kind, inner);
        lemma_holding(less, kind, inner, t);
        assert(list.contains(t) <==> less.contains(t) || t == list.last()) by {
            if list.contains(t) {
                let i = choose|i: int| 0 <= i < list.len() && list[i] == t;
                if i < less.len() {
                    assert(less[i] == t);
                }
            }
            if less.contains(t) {
                let i = choose|i: int| 0 <= i < less.len() && less[i] == t;
                assert(list[i] == t);
            }
            assert(list[list.len() - 1] == list.last());
        }
        let x = list.last();
        if x.kind == kind && x.child_of_kind(inner) is Some {
            let all = rest.push(x);
            assert(all.contains(t) <==> rest.contains(t) || t == x) by {
                if all.contains(t) {
                    let i = choose|i: int| 0 <= i < all.len() && all[i] == t;
                    if i < rest.len() {
                        assert(rest[i] == t);
                    }
                }
                if rest.contains(t) {
                    let i = choose|i: int| 0 <= i < rest.len() && rest[i] == t;
                    assert(all[i] == t);
                }
                assert(all[all.len() - 1] == x);
            }
        }
    }
}

proof fn lemma_type_specs(list: Seq<Tree>, n: int, t: Tree)
    requires
        0 <= n <= list.len(),
    ensures
        type_specs(list, n).contains(t) <==> exists|i: int|
            0 <= i < n && (#[trigger] list[i]).kind == "type_declaration"@ && holding(
                list[i].children,
                "type_spec"@,
                "type_identifier"@,
            ).contains(t),
    decreases n,
{
    if n > 0 {
        lemma_type_specs(list, n - 1, t);
        let before = type_specs(list, n - 1);
        if list[n - 1].kind == "type_declaration"@ {
            let more = holding(list[n - 1].children, "type_spec"@, "type_identifier"@);
            assert((before + more).contains(t) <==> before.contains(t) || more.contains(t)) by {
                if (before + more).contains(t) {
                    let i = choose|i: int|
                        0 <= i < (before + more).len() && (before + more)[i] == t;
                    if i < before.len() {
                        assert(before[i] == t);
                    } else {
                        assert(more[i - before.len()] == t);
                    }
                }
                if before.contains(t) {
                    let i = choose|i: int| 0 <= i < before.len() && before[i] == t;
                    assert((before + more)[i] == t);
                }
                if more.contains(t) {
                    let i = choose|i: int| 0 <= i < more.len() && more[i] == t;
                    assert((before + more)[before.len() + i] == t);
                }
            }
        }
    }
}

proof fn lemma_declares_named(root: Tree, t: Tree, name: Seq<char>)
    ensures
        declares_named(root, t, name) <==> type_specs(
            root.children,
            root.children.len() as int,
        ).contains(t) && text_of_child(t, "type_identifier"@) == name,
{
    let list = root.children;
    lemma_type_specs(list, list.len() as int, t);
    first_of_a_kind_is_found(t, "type_identifier"@);
    if declares_named(root, t, name) {
        let decl = choose|decl: Tree| #[trigger]
            is_child(root, decl) && decl.kind == "type_declaration"@ && is_child(decl, t);
        let i = choose|i: int| 0 <= i < list.len() && list[i] == decl;
        lemma_holding(list[i].children, "type_spec"@, "type_identifier"@, t);
        assert(list[i].kind == "type_declaration"@);
    }
    if type_specs(list, list.len() as int).contains(t) {
        let i = choose|i: int|
            0 <= i < list.len() && (#[trigger] list[i]).kind == "type_declaration"@ && holding(
                list[i].children,
                "type_spec"@,
                "type_identifier"@,
            ).contains(t);
        lemma_holding(list[i].children, "type_spec"@, "type_identifier"@, t);
        assert(is_child(root, list[i]));
    }
}

proof fn lemma_lists_fields(t: Tree, body: Tree)
    ensures
        lists_fields(t, body) <==> struct_body(t) == Some(body),
{
    first_of_a_kind_is_found(t, "struct_type"@);
    match t.child_of_kind("struct_type"@) {
        Some(st) => {
            first_of_a_kind_is_found(st, "field_declaration_list"@);
        },
        None => {},
    }
}

proof fn lemma_declares_field(body: Tree, f: Tree, name: Seq<char>)
    ensures
        declares_field(body, f, name) <==> fields_of(body).contains(f) && text_of_child(
            f,
            "field_identifier"@,
        ) == name,
{
    lemma_holding(body.children, "field_declaration"@, "field_identifier"@, f);
    first_of_a_kind_is_found(f, "field_identifier"@);
}

proof fn lemma_body_named(specs: Seq<Tree>, name: Seq<char>, from: int)
    requires
        0 <= from,
    ensures
        match body_named(specs, name, from) {
            Some(body) => exists|i: int|
                from <= i < specs.len() && text_of_child(#[trigger] specs[i], "type_identifier"@)
                    == name && struct_body(specs[i]) == Some(body),
            None => forall|i: int|
                from <= i < specs.len() && text_of_child(
                    #[trigger] specs[i],
                    "type_identifier"@,
                ) == name ==> struct_body(specs[i]) is None,
        },
    decreases specs.len() - from,
{
    if from < specs.len() {
        if !(text_of_child(specs[from], "type_identifier"@) == name && struct_body(
            specs[from],
        ) is Some) {
            lemma_body_named(specs, name, from + 1);
        } else {
            assert(struct_body(specs[from]) == body_named(specs, name, from));
        }
    }
}

proof fn lemma_field_named(fields: Seq<Tree>, name: Seq<char>, from: int)
    requires
        0 <= from,
    ensures
        match field_named(fields, name, from) {
            Some(f) => fields.contains(f) && text_of_child(f, "field_identifier"@) == name,
            None => forall|i: int|
                from <= i < fields.len() ==> text_of_child(
                    #[trigger] fields[i],
                    "field_identifier"@,
                ) != name,
        },
    decreases fields.len() - from,
{
    if from < fields.len() {
        if text_of_child(fields[from], "field_identifier"@) == name {
            assert(fields.contains(fields[from]));
        } else {
            lemma_field_named(fields, name, from + 1);
        }
    }
}

/// The field that is tagged is one with the name that was asked for, in a struct with the name
/// that was asked for. Where there is no such struct, or none of its fields has the name, the
/// request is refused.
pub proof fn fields_are_found_in_their_struct(root: Tree, ask: TagAsk)
    ensures
        match field_found(root, ask) {
            Ok(f) => exists|t: Tree, body: Tree| #[trigger]
                declares_named(root, t, ask.target) && #[trigger] lists_fields(t, body)
                    && declares_field(body, f, ask.field),
            Err(_) => (forall|t: Tree, body: Tree| #[trigger]
                declares_named(root, t, ask.target) ==> !#[trigger] lists_fields(t, body)) || (
            exists|t: Tree, body: Tree| #[trigger]
                declares_named(root, t, ask.target) && #[trigger] lists_fields(t, body) && forall|
                    f: Tree,
                | !#[trigger] declares_field(body, f, ask.field)),
        },
{
    let specs = type_specs(root.children, root.children.len() as int);
    lemma_body_named(specs, ask.target, 0);
    match body_named(specs, ask.target, 0) {
        Some(body) => {
            let i = choose|i: int|
                0 <= i < specs.len() && text_of_child(#[trigger] specs[i], "type_identifier"@)
                    == ask.target && struct_body(specs[i]) == Some(body);
            let t = specs[i];
            assert(specs.contains(t));
            lemma_declares_named(root, t, ask.target);
            lemma_lists_fields(t, body);
            assert(declares_named(root, t, ask.target) && lists_fields(t, body));
            lemma_field_named(fields_of(body), ask.field, 0);
            match field_named(fields_of(body), ask.field, 0) {
                Some(f) => {
                    lemma_declares_field(body, f, ask.field);
                },
                None => {
                    assert forall|f: Tree| !#[trigger] declares_field(body, f, ask.field) by {
                        lemma_declares_field(body, f, ask.field);
                    }
                },
            }
        },
        None => {
            assert forall|t: Tree, body: Tree| #[trigger]
                declares_named(root, t, ask.target) implies !#[trigger] lists_fields(t, body) by {
                lemma_declares_named(root, t, ask.target);
                lemma_lists_fields(t, body);
                let i = choose|i: int| 0 <= i < specs.len() && specs[i] == t;
                assert(text_of_child(specs[i], "type_identifier"@) == ask.target);
            }
        },
    }
}

proof fn lemma_type_end(start: int, list: Seq<Tree>, n: int)
    requires
        0 <= n <= list.len(),
    ensures
        type_end(start, list, n) >= start,
        forall|i: int|
            0 <= i < n && (#[trigger] list[i]).kind != "raw_string_literal"@ ==> list[i].end
                <= type_end(start, list, n),
        type_end(start, list, n) == start || exists|i: int|
            0 <= i < n && (#[trigger] list[i]).kind != "raw_string_literal"@ && list[i].end
                == type_end(start, list, n),
    decreases n,
{
    if n > 0 {
        lemma_type_end(start, list, n - 1);
    }
}

/// A field without a tag gets one behind everything that it has, with a space before it: the key,
/// and the value in quotes.
pub proof fn new_tags_go_behind_the_field(
    source: Seq<char>,
    field: Tree,
    key: Seq<char>,
    value: Seq<char>,
)
    requires
        lacks_kind(field, "raw_string_literal"@),
    ensures
        match tagged(source, field, key, value) {
            Ok(r) => r.tag_string == seq!['`'] + key + seq![':', '"'] + value + seq!['"', '`']
                && exists|at: int|
                #![trigger bytes(source).subrange(0, at)]
                {
                    &&& at >= field.start
                    &&& forall|i: int|
                        0 <= i < field.children.len() ==> (#[trigger] field.children[i]).end <= at
                    &&& at == field.start || exists|i: int|
                        0 <= i < field.children.len() && (#[trigger] field.children[i]).end == at
                    &&& bytes(r.new_source) == bytes(source).subrange(0, at) + bytes(
                        seq![' '] + r.tag_string,
                    ) + bytes(source).subrange(at, bytes(source).len() as int)
                },
            Err(_) => true,
        },
{
    first_of_a_kind_is_found(field, "raw_string_literal"@);
    let n = field.children.len() as int;
    let at = type_end(field.start, field.children, n);
    lemma_type_end(field.start, field.children, n);
    let tag = "`"@ + key + ":\""@ + value + "\"`"@;
    reveal_strlit("`");
    reveal_strlit(":\"");
    reveal_strlit("\"`");
    reveal_strlit(" ");
    assert("`"@ =~= seq!['`']);
    assert(":\""@ =~= seq![':', '"']);
    assert("\"`"@ =~= seq!['"', '`']);
    assert(" "@ =~= seq![' ']);
    assert forall|i: int| 0 <= i < n implies (#[trigger] field.children[i]).end <= at by {
        assert(field.children[i].kind != "raw_string_literal"@);
    }
    replacements_change_their_range(source, at, at, " "@ + tag);
    match tagged(source, field, key, value) {
        Ok(r) => {
            assert(bytes(r.new_source) == bytes(source).subrange(0, at) + bytes(
                seq![' '] + r.tag_string,
            ) + bytes(source).subrange(at, bytes(source).len() as int));
        },
        Err(_) => {},
    }
}

/// The tag of a field that has one is written anew, and nothing else of the file changes. What is
/// read from the new tag is what was read from the old one, with the key set.
pub proof fn tags_that_are_there_are_written_anew(
    source: Seq<char>,
    field: Tree,
    key: Seq<char>,
    value: Seq<char>,
    c: Tree,
)
    requires
        is_first_kind(field, "raw_string_literal"@, c),
        char_range(source, c.start, c.end),
        c.text.len() >= 2,
        forall|i: int|
            0 <= i < struct_tags(c.text.subrange(1, c.text.len() - 1)).len() ==> clean_key(
                (#[trigger] struct_tags(c.text.subrange(1, c.text.len() - 1))[i]).0,
            ) && closed_value(struct_tags(c.text.subrange(1, c.text.len() - 1))[i].1),
        clean_key(key),
        closed_value(value),
    ensures
        ({
            let b = bytes(source);
            let r = tagged(source, field, key, value);
            let tag = r->Ok_0.tag_string;
            &&& r is Ok
            &&& tag.len() >= 2 && tag[0] == '`' && tag.last() == '`'
            &&& struct_tags(tag.subrange(1, tag.len() - 1)) == with_tag(
                struct_tags(c.text.subrange(1, c.text.len() - 1)),
                key,
                value,
            )
            &&& bytes(r->Ok_0.new_source) == b.subrange(0, c.start) + bytes(tag) + b.subrange(
                c.end,
                b.len() as int,
            )
        }),
{
    first_of_a_kind_is_found(field, "raw_string_literal"@);
    let had = struct_tags(c.text.subrange(1, c.text.len() - 1));
    let all = with_tag(had, key, value);
    assert forall|i: int| 0 <= i < all.len() implies clean_key((#[trigger] all[i]).0)
        && closed_value(all[i].1) by {
        if i < had.len() {
            assert(clean_key(had[i].0) && closed_value(had[i].1));
        }
    }
    written_tags_are_read_back(all);
    reveal_strlit("`");
    assert("`"@ =~= seq!['`']);
    let tag = "`"@ + tags_text(all) + "`"@;
    assert(tag.subrange(1, tag.len() - 1) =~= tags_text(all));
    assert(tag.last() == '`');
    replacements_change_their_range(source, c.start, c.end, tag);
}

/// A request names a file, a struct, a field, a key and a value, and is refused without one of them.
pub proof fn tag_requests_are_taken_as_written(params: Json)
    ensures
        match tag_ask(params) {
            Ok(ask) => params.text_field("file"@) == Some(ask.file) && params.text_field("target"@)
                == Some(ask.target) && params.text_field("field"@) == Some(ask.field)
                && params.text_field("tag"@) == Some(ask.tag) && params.text_field("value"@) == Some(
                ask.value,
            ),
            Err(_) => params.text_field("file"@) is None || params.text_field("target"@) is None
                || params.text_field("field"@) is None || params.text_field("tag"@) is None
                || params.text_field("value"@) is None,
        },
{
}

/// A request changes the Go file that it names, in the field that its tree has for it, and not at all
/// where the file is no Go file or has no tree.
pub proof fn tags_are_for_go(params: Json, t: Target)
    ensures
        match tag_outcome(params, t) {
            Ok(r) => tag_ask(params) is Ok && ({
                let ask = tag_ask(params)->Ok_0;
                let source = (t.content->Ok_0)@;
                let root = syntax_of(source, LangId::Go)->0;
                &&& t.exists && path_lang(ask.file) == Some(LangId::Go) && t.content is Ok
                &&& syntax_of(source, LangId::Go) is Some
                &&& field_found(root, ask) is Ok
                &&& tagged(source, field_found(root, ask)->Ok_0, ask.tag, ask.value) == Ok::<
                    Tagged,
                    RefusalModel,
                >(r)
            }),
            Err(_) => tag_ask(params) is Err || ({
                let ask = tag_ask(params)->Ok_0;
                let source = (t.content->Ok_0)@;
                let root = syntax_of(source, LangId::Go)->0;
                ||| !t.exists || path_lang(ask.file) != Some(LangId::Go) || t.content is Err
                ||| syntax_of(source, LangId::Go) is None
                ||| field_found(root, ask) is Err
                ||| tagged(source, field_found(root, ask)->Ok_0, ask.tag, ask.value) is Err
            }),
        },
{
}

} // verus!
