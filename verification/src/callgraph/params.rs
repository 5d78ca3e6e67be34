//! Parameter names in a function's signature.
use vstd::prelude::*;
use vstd::slice::slice_subrange;

use crate::lang::LangId;
use crate::text::{
    chars_of, chars_start_with, find_char, find_char_from, is_white_space, lemma_char_found,
    same_chars, string_of, texts, trim_chars, trim_start_chars, trimmed, trimmed_start, white_space,
};

verus! {

/// Whether `c` opens a bracket.
pub open spec fn opens(c: char) -> bool {
    c == '<' || c == '[' || c == '{' || c == '('
}

/// Whether `c` closes a bracket.
pub open spec fn closes(c: char) -> bool {
    c == '>' || c == ']' || c == '}' || c == ')'
}

/// The parts of `s` between the commas outside all brackets, where `depth` brackets
/// are open before `s` and `current` is what the first part starts with. A last part
/// that is empty is left out.
pub open spec fn param_parts(s: Seq<char>, depth: int, current: Seq<char>) -> Seq<Seq<char>>
    decreases s.len(),
{
    if s.len() == 0 {
        if current.len() > 0 {
            seq![current]
        } else {
            Seq::empty()
        }
    } else {
        let c = s[0];
        let rest = s.drop_first();
        if opens(c) {
            param_parts(rest, depth + 1, current.push(c))
        } else if closes(c) {
            param_parts(rest, depth - 1, current.push(c))
        } else if c == ',' && depth == 0 {
            seq![current] + param_parts(rest, depth, Seq::empty())
        } else {
            param_parts(rest, depth, current.push(c))
        }
    }
}

fn split_params(s: &[char]) -> (r: Vec<String>)
    ensures
        texts(r@) == param_parts(s@, 0, Seq::empty()),
{
    let mut parts: Vec<String> = Vec::new();
    let mut current = String::new();
    let mut depth: i128 = 0;
    let mut i: usize = 0;
    assert(s@.skip(0) =~= s@);
    assert(texts(parts@) + param_parts(s@, 0, Seq::empty()) =~= param_parts(s@, 0, Seq::empty()));
    while i < s.len()
        invariant
            i <= s.len(),
            -(i as int) <= depth <= i,
            texts(parts@) + param_parts(s@.skip(i as int), depth as int, current@) == param_parts(
                s@,
                0,
                Seq::empty(),
            ),
        decreases s.len() - i,
    {
        let c = s[i];
        proof {
            assert(s@.skip(i as int)[0] == c);
            assert(s@.skip(i as int).drop_first() =~= s@.skip(i + 1));
        }
        if c == '<' || c == '[' || c == '{' || c == '(' {
            depth = depth + 1;
            current.push(c);
        } else if c == '>' || c == ']' || c == '}' || c == ')' {
            depth = depth - 1;
            current.push(c);
        } else if c == ',' && depth == 0 {
            let ghost before = texts(parts@);
            let ghost tail = param_parts(s@.skip(i + 1), 0, Seq::empty());
            let ghost part = current@;
            parts.push(current);
            current = String::new();
            proof {
                assert(texts(parts@) =~= before.push(part));
                assert(before + (seq![part] + tail) =~= before.push(part) + tail);
            }
        } else {
            current.push(c);
        }
        i = i + 1;
    }
    let ghost before = texts(parts@);
    if !current.as_str().is_empty() {
        let ghost part = current@;
        parts.push(current);
        assert(texts(parts@) =~= before + seq![part]);
    } else {
        assert(before + Seq::<Seq<char>>::empty() =~= before);
    }
    parts
}

/// What a parameter's text leaves when the marks of a rest parameter, and in Rust
/// `mut `, are taken off its front.
pub open spec fn without_marks(t: Seq<char>, lang: LangId) -> Seq<char> {
    let w = if "..."@.is_prefix_of(t) {
        t.skip(3)
    } else if "**"@.is_prefix_of(t) {
        t.skip(2)
    } else if "*"@.is_prefix_of(t) && lang is Python {
        t.skip(1)
    } else {
        t
    };
    if lang is Rust && "mut "@.is_prefix_of(w) {
        w.skip(4)
    } else {
        w
    }
}

/// `s` up to its first `:` or `=`.
pub open spec fn before_type(s: Seq<char>) -> Seq<char>
    decreases s.len(),
{
    if s.len() == 0 || s[0] == ':' || s[0] == '=' {
        Seq::empty()
    } else {
        seq![s[0]] + before_type(s.drop_first())
    }
}

/// `s` without the question marks at its end.
pub open spec fn without_question_marks(s: Seq<char>) -> Seq<char>
    decreases s.len(),
{
    if s.len() > 0 && s.last() == '?' {
        without_question_marks(s.drop_last())
    } else {
        s
    }
}

/// The characters of `s` before its first white space.
pub open spec fn word_start(s: Seq<char>) -> Seq<char>
    decreases s.len(),
{
    if s.len() == 0 || white_space(s[0]) {
        Seq::empty()
    } else {
        seq![s[0]] + word_start(s.drop_first())
    }
}

/// The name in the declaration of one parameter.
pub open spec fn param_name(param: Seq<char>, lang: LangId) -> Seq<char> {
    let name = without_question_marks(
        trimmed(before_type(without_marks(trimmed(param), lang))),
    );
    if lang is Go && name.contains(' ') {
        word_start(trimmed_start(name))
    } else {
        name
    }
}

fn type_start(s: &[char]) -> (r: &[char])
    ensures
        r@ == before_type(s@),
{
    let mut i: usize = 0;
    assert(s@.skip(0) =~= s@);
    assert(s@.take(0) + before_type(s@) =~= before_type(s@));
    while i < s.len() && s[i] != ':' && s[i] != '='
        invariant
            i <= s.len(),
            s@.take(i as int) + before_type(s@.skip(i as int)) == before_type(s@),
        decreases s.len() - i,
    {
        proof {
            assert(s@.skip(i as int)[0] == s@[i as int]);
            assert(s@.skip(i as int).drop_first() =~= s@.skip(i + 1));
            assert(s@.take(i as int) + (seq![s@[i as int]] + before_type(s@.skip(i + 1)))
                =~= s@.take(i + 1) + before_type(s@.skip(i + 1)));
        }
        i = i + 1;
    }
    assert(s@.take(i as int) + Seq::<char>::empty() =~= s@.take(i as int));
    slice_subrange(s, 0, i)
}

fn first_word(s: &[char]) -> (r: &[char])
    ensures
        r@ == word_start(s@),
{
    let mut i: usize = 0;
    assert(s@.skip(0) =~= s@);
    assert(s@.take(0) + word_start(s@) =~= word_start(s@));
    while i < s.len() && !is_white_space(s[i])
        invariant
            i <= s.len(),
            s@.take(i as int) + word_start(s@.skip(i as int)) == word_start(s@),
        decreases s.len() - i,
    {
        proof {
            assert(s@.skip(i as int)[0] == s@[i as int]);
            assert(s@.skip(i as int).drop_first() =~= s@.skip(i + 1));
            assert(s@.take(i as int) + (seq![s@[i as int]] + word_start(s@.skip(i + 1)))
                =~= s@.take(i + 1) + word_start(s@.skip(i + 1)));
        }
        i = i + 1;
    }
    assert(s@.take(i as int) + Seq::<char>::empty() =~= s@.take(i as int));
    slice_subrange(s, 0, i)
}

fn trim_question_marks(s: &[char]) -> (r: &[char])
    ensures
        r@ == without_question_marks(s@),
{
    let mut n: usize = s.len();
    assert(s@.take(n as int) =~= s@);
    while n > 0 && s[n - 1] == '?'
        invariant
            n <= s.len(),
            without_question_marks(s@) == without_question_marks(s@.take(n as int)),
        decreases n,
    {
        assert(s@.take(n as int).drop_last() =~= s@.take(n - 1));
        n = n - 1;
    }
    slice_subrange(s, 0, n)
}

/// Whether the slice starts with a short text.
fn begins(s: &[char], prefix: &str) -> (r: bool)
    ensures
        r == prefix@.is_prefix_of(s@),
{
    let p = chars_of(prefix);
    chars_start_with(s, p.as_slice())
}

fn is_text(s: &[char], t: &str) -> (r: bool)
    ensures
        r == (s@ == t@),
{
    let p = chars_of(t);
    same_chars(s, p.as_slice())
}

fn extract_param_name(param: &[char], lang: LangId) -> (r: String)
    ensures
        r@ == param_name(param@, lang),
{
    let t = trim_chars(param);
    proof {
        reveal_strlit("...");
        reveal_strlit("**");
        reveal_strlit("*");
        reveal_strlit("mut ");
    }
    let w = if begins(t, "...") {
        slice_subrange(t, 3, t.len())
    } else if begins(t, "**") {
        slice_subrange(t, 2, t.len())
    } else if begins(t, "*") && lang == LangId::Python {
        slice_subrange(t, 1, t.len())
    } else {
        t
    };
    let v = if lang == LangId::Rust && begins(w, "mut ") {
        slice_subrange(w, 4, w.len())
    } else {
        w
    };
    assert(v@ =~= without_marks(trimmed(param@), lang));
    let name = trim_question_marks(trim_chars(type_start(v)));
    if lang == LangId::Go && find_char(name, ' ', 0).is_some() {
        proof {
            lemma_char_found(name@, ' ', 0);
        }
        string_of(first_word(trim_start_chars(name)))
    } else {
        proof {
            lemma_char_found(name@, ' ', 0);
        }
        string_of(name)
    }
}

/// `s` without its blanks.
pub open spec fn without_blanks(s: Seq<char>) -> Seq<char>
    decreases s.len(),
{
    if s.len() == 0 {
        s
    } else if s.last() == ' ' {
        without_blanks(s.drop_last())
    } else {
        without_blanks(s.drop_last()).push(s.last())
    }
}

fn remove_blanks(s: &[char]) -> (r: Vec<char>)
    ensures
        r@ == without_blanks(s@),
{
    let mut out: Vec<char> = Vec::new();
    let mut i: usize = 0;
    assert(s@.take(0) =~= Seq::<char>::empty());
    while i < s.len()
        invariant
            i <= s.len(),
            out@ == without_blanks(s@.take(i as int)),
        decreases s.len() - i,
    {
        assert(s@.take(i + 1).drop_last() =~= s@.take(i as int));
        if s[i] != ' ' {
            out.push(s[i]);
        }
        i = i + 1;
    }
    assert(s@.take(s@.len() as int) =~= s@);
    out
}

/// Whether a parameter is the receiver of a method in a language.
pub open spec fn receiver(t: Seq<char>, lang: LangId) -> bool {
    match lang {
        LangId::Rust => {
            let n = without_blanks(t);
            n == "self"@ || n == "&self"@ || n == "&mutself"@ || n == "mutself"@
        },
        LangId::Python => t == "self"@ || "self:"@.is_prefix_of(t),
        _ => false,
    }
}

fn is_receiver(t: &[char], lang: LangId) -> (r: bool)
    ensures
        r == receiver(t@, lang),
{
    match lang {
        LangId::Rust => {
            let n = remove_blanks(t);
            let n = n.as_slice();
            is_text(n, "self") || is_text(n, "&self") || is_text(n, "&mutself") || is_text(
                n,
                "mutself",
            )
        },
        LangId::Python => is_text(t, "self") || begins(t, "self:"),
        _ => false,
    }
}

/// The names of the parameters that `parts` declare, without receivers and without
/// parts that have no name.
pub open spec fn param_names(parts: Seq<Seq<char>>, lang: LangId) -> Seq<Seq<char>>
    decreases parts.len(),
{
    if parts.len() == 0 {
        Seq::empty()
    } else {
        let rest = param_names(parts.drop_last(), lang);
        let t = trimmed(parts.last());
        if t.len() == 0 || receiver(t, lang) || param_name(t, lang).len() == 0 {
            rest
        } else {
            rest.push(param_name(t, lang))
        }
    }
}

/// The names of the parameters of a signature: of what stands between its first `(`
/// and the next `)`.
pub open spec fn parameters(signature: Seq<char>, lang: LangId) -> Seq<Seq<char>> {
    match find_char_from(signature, '(', 0) {
        None => Seq::empty(),
        Some(open) => match find_char_from(signature, ')', open + 1) {
            None => Seq::empty(),
            Some(close) => {
                let inner = trimmed(signature.subrange(open + 1, close));
                param_names(param_parts(inner, 0, Seq::empty()), lang)
            },
        },
    }
}

/// The names of the parameters of a signature in a language.
pub fn extract_parameters(signature: &str, lang: LangId) -> (r: Vec<String>)
    ensures
        texts(r@) == parameters(signature@, lang),
{
    let mut result: Vec<String> = Vec::new();
    assert(texts(result@) =~= Seq::<Seq<char>>::empty());
    let s = chars_of(signature);
    let open = match find_char(s.as_slice(), '(', 0) {
        Some(i) => i,
        None => {
            return result;
        },
    };
    let close = match find_char(s.as_slice(), ')', open + 1) {
        Some(i) => i,
        None => {
            return result;
        },
    };
    let inner = trim_chars(slice_subrange(s.as_slice(), open + 1, close));
    let parts = split_params(inner);
    let ghost all = texts(parts@);
    let mut i: usize = 0;
    assert(all.take(0) =~= Seq::<Seq<char>>::empty());
    while i < parts.len()
        invariant
            i <= parts.len(),
            all == texts(parts@),
            texts(result@) == param_names(all.take(i as int), lang),
        decreases parts.len() - i,
    {
        proof {
            assert(all.take(i + 1).drop_last() =~= all.take(i as int));
            assert(all.take(i + 1).last() == parts@[i as int]@);
        }
        let ghost before = texts(result@);
        let part = chars_of(parts[i].as_str());
        let t = trim_chars(part.as_slice());
        if t.len() > 0 && !is_receiver(t, lang) {
            let name = extract_param_name(t, lang);
            if !name.as_str().is_empty() {
                let ghost added = name@;
                result.push(name);
                assert(texts(result@) =~= before.push(added));
            }
        }
        i = i + 1;
    }
    assert(all.take(parts@.len() as int) =~= all);
    result
}

/// How many brackets are open behind the first `n` characters, those closed taken off.
pub open spec fn open_brackets(s: Seq<char>, n: int) -> int
    decreases n,
{
    if n <= 0 || n > s.len() {
        0
    } else {
        let c = s[n - 1];
        let before = open_brackets(s, n - 1);
        if c == '<' || c == '[' || c == '{' || c == '(' {
            before + 1
        } else if c == '>' || c == ']' || c == '}' || c == ')' {
            before - 1
        } else {
            before
        }
    }
}

/// Whether a text has no comma outside brackets, and closes every bracket that it opens.
pub open spec fn one_piece(s: Seq<char>) -> bool {
    &&& open_brackets(s, s.len() as int) == 0
    &&& forall|k: int| 0 <= k < s.len() && #[trigger] s[k] == ',' ==> open_brackets(s, k) != 0
}

proof fn lemma_parts_step(a: Seq<char>, rest: Seq<char>, k: int)
    requires
        0 <= k <= a.len(),
        one_piece(a),
    ensures
        param_parts(a.skip(k) + rest, open_brackets(a, k), a.take(k)) == param_parts(rest, 0, a),
    decreases a.len() - k,
{
    if k == a.len() {
        assert(a.skip(k) + rest =~= rest);
        assert(a.take(k) =~= a);
    } else {
        let s = a.skip(k) + rest;
        assert(s[0] == a[k]);
        assert(s.drop_first() =~= a.skip(k + 1) + rest);
        assert(a.take(k).push(a[k]) =~= a.take(k + 1));
        lemma_parts_step(a, rest, k + 1);
    }
}

/// Parameters are parted at the commas between them and nowhere else: a comma inside brackets
/// parts nothing.
pub proof fn parameters_are_parted_at_their_commas(a: Seq<char>, rest: Seq<char>)
    requires
        one_piece(a),
    ensures
        param_parts(a.push(',') + rest, 0, Seq::empty()) == seq![a] + param_parts(
            rest,
            0,
            Seq::empty(),
        ),
        a.len() > 0 ==> param_parts(a, 0, Seq::empty()) == seq![a],
        param_parts(Seq::empty(), 0, Seq::empty()) == Seq::<Seq<char>>::empty(),
{
    let s = seq![','] + rest;
    lemma_parts_step(a, s, 0);
    assert(a.skip(0) + s =~= a.push(',') + rest);
    assert(a.take(0) =~= Seq::<char>::empty());
    assert(s.drop_first() =~= rest);
    lemma_parts_step(a, Seq::empty(), 0);
    assert(a.skip(0) + Seq::<char>::empty() =~= a);
}

/// Whether a text can be the name of a parameter.
pub open spec fn plain_param(name: Seq<char>) -> bool {
    &&& name.len() > 0
    &&& forall|k: int|
        0 <= k < name.len() ==> (#[trigger] name[k]) != ':' && name[k] != '=' && name[k] != '?'
            && name[k] != '.' && name[k] != '*' && name[k] != ' ' && !white_space(name[k])
}

proof fn lemma_before_type(name: Seq<char>, rest: Seq<char>)
    requires
        forall|k: int| 0 <= k < name.len() ==> (#[trigger] name[k]) != ':' && name[k] != '=',
        rest.len() == 0 || rest[0] == ':' || rest[0] == '=',
    ensures
        before_type(name + rest) == name,
    decreases name.len(),
{
    if name.len() == 0 {
        assert(name + rest =~= rest);
        assert(before_type(rest) =~= name);
    } else {
        assert(name[0] != ':' && name[0] != '=');
        assert((name + rest).drop_first() =~= name.drop_first() + rest);
        assert forall|k: int| 0 <= k < name.drop_first().len() implies (
        #[trigger] name.drop_first()[k]) != ':' && name.drop_first()[k] != '=' by {
            assert(name.drop_first()[k] == name[k + 1]);
        }
        lemma_before_type(name.drop_first(), rest);
        assert(seq![name[0]] + name.drop_first() =~= name);
    }
}

proof fn lemma_mark_texts()
    ensures
        "..."@ == seq!['.', '.', '.'],
        "**"@ == seq!['*', '*'],
        "*"@ == seq!['*'],
        "mut "@ == seq!['m', 'u', 't', ' '],
{
    reveal_strlit("...");
    reveal_strlit("**");
    reveal_strlit("*");
    reveal_strlit("mut ");
    assert("..."@ =~= seq!['.', '.', '.']);
    assert("**"@ =~= seq!['*', '*']);
    assert("*"@ =~= seq!['*']);
    assert("mut "@ =~= seq!['m', 'u', 't', ' ']);
}

proof fn lemma_plain_param(name: Seq<char>, rest: Seq<char>, lang: LangId)
    requires
        plain_param(name),
        rest.len() == 0 || rest[0] == ':' || rest[0] == '=',
    ensures
        without_marks(name + rest, lang) == name + rest,
        without_question_marks(trimmed(before_type(name + rest))) == name,
        !name.contains(' '),
{
    lemma_mark_texts();
    let t = name + rest;
    assert(t[0] == name[0]);
    if "mut "@.is_prefix_of(t) {
        assert(t[3] == ' ');
        if name.len() > 3 {
            assert(name[3] != ' ');
        } else {
            assert(t[name.len() as int] == rest[0]);
            assert(t[name.len() as int] == "mut "@[name.len() as int]);
        }
    }
    if "..."@.is_prefix_of(t) {
        assert(t[0] == '.');
    }
    if "**"@.is_prefix_of(t) {
        assert(t.subrange(0, 2)[0] == "**"@[0]);
    }
    if "*"@.is_prefix_of(t) {
        assert(t.subrange(0, 1)[0] == "*"@[0]);
    }
    lemma_before_type(name, rest);
    assert(name[0] == name.first());
    assert(name[name.len() - 1] == name.last());
    assert(trimmed(name) == name);
}

/// The name of a parameter is what stands before its type and its default.
pub proof fn parameters_are_named_before_their_type(
    name: Seq<char>,
    rest: Seq<char>,
    lang: LangId,
)
    requires
        plain_param(name),
        rest.len() == 0 || rest[0] == ':' || rest[0] == '=',
        trimmed(name + rest) == name + rest,
    ensures
        param_name(name + rest, lang) == name,
{
    lemma_plain_param(name, rest, lang);
}

/// The marks of a parameter that takes the rest, and of one that can change, belong to no name.
pub proof fn marks_are_no_part_of_a_name(name: Seq<char>, rest: Seq<char>, lang: LangId)
    requires
        plain_param(name),
        rest.len() == 0 || rest[0] == ':' || rest[0] == '=',
        rest.len() > 0 ==> !white_space(rest.last()),
    ensures
        param_name(seq!['.', '.', '.'] + (name + rest), lang) == name,
        param_name(seq!['*', '*'] + (name + rest), lang) == name,
        lang is Python ==> param_name(seq!['*'] + (name + rest), lang) == name,
        lang is Rust ==> param_name(seq!['m', 'u', 't', ' '] + (name + rest), lang) == name,
{
    let t = name + rest;
    lemma_mark_texts();
    lemma_plain_param(name, rest, lang);
    assert(name[0] == t[0]);
    assert(name[name.len() - 1] == name.last());
    assert(!white_space(t.last()));
    let a = seq!['.', '.', '.'] + t;
    let b = seq!['*', '*'] + t;
    let c = seq!['*'] + t;
    let d = seq!['m', 'u', 't', ' '] + t;
    assert(!white_space('.') && !white_space('*') && !white_space('m'));
    assert(a.last() == t.last() && b.last() == t.last() && c.last() == t.last() && d.last()
        == t.last());
    assert(trimmed(a) == a && trimmed(b) == b && trimmed(c) == c && trimmed(d) == d);
    assert(a.skip(3) =~= t);
    assert(b.skip(2) =~= t);
    assert(c.skip(1) =~= t);
    assert(d.skip(4) =~= t);
    assert(b[0] == '*' && c[0] == '*' && c[1] == t[0] && d[0] == 'm');
    assert("..."@.is_prefix_of(a)) by {
        assert(a.take(3) =~= "..."@);
    }
    assert("**"@.is_prefix_of(b));
    assert(!"..."@.is_prefix_of(b)) by {
        if "..."@.is_prefix_of(b) {
            assert(b[0] == '.');
        }
    }
    assert("*"@.is_prefix_of(c));
    assert(!"..."@.is_prefix_of(c)) by {
        if "..."@.is_prefix_of(c) {
            assert(c[0] == '.');
        }
    }
    assert(!"**"@.is_prefix_of(c)) by {
        if "**"@.is_prefix_of(c) {
            assert(c[1] == '*');
            assert(name[0] != '*');
        }
    }
    assert("mut "@.is_prefix_of(d));
    assert(!"..."@.is_prefix_of(d)) by {
        if "..."@.is_prefix_of(d) {
            assert(d[0] == '.');
        }
    }
    assert(!"**"@.is_prefix_of(d) && !"*"@.is_prefix_of(d)) by {
        if "**"@.is_prefix_of(d) || "*"@.is_prefix_of(d) {
            assert(d[0] == '*');
        }
    }
    assert(!(lang is Rust && "mut "@.is_prefix_of(t))) by {
        assert(without_marks(t, lang) == t);
        if lang is Rust && "mut "@.is_prefix_of(t) {
            assert(t[3] == ' ');
            if name.len() > 3 {
                assert(name[3] != ' ');
            } else {
                assert(t[name.len() as int] == rest[0]);
                assert(t[name.len() as int] == "mut "@[name.len() as int]);
            }
        }
    }
}

/// The receiver of a method is no parameter of it; every other parameter is one, in order.
pub proof fn receivers_are_no_parameters(parts: Seq<Seq<char>>, p: Seq<char>, lang: LangId)
    requires
        trimmed(p) == p,
        p.len() > 0,
    ensures
        lang is Rust && (p == "self"@ || p == "&self"@) ==> param_names(parts.push(p), lang)
            == param_names(parts, lang),
        lang is Python && p == "self"@ ==> param_names(parts.push(p), lang) == param_names(
            parts,
            lang,
        ),
        !(lang is Rust) && !(lang is Python) && param_name(p, lang).len() > 0 ==> param_names(
            parts.push(p),
            lang,
        ) == param_names(parts, lang).push(param_name(p, lang)),
{
    assert(parts.push(p).drop_last() =~= parts);
    reveal_strlit("self");
    reveal_strlit("&self");
    if p == "self"@ || p == "&self"@ {
        assert forall|k: int| 0 <= k < p.len() implies (#[trigger] p[k]) != ' ' by {}
        lemma_no_blanks(p);
    }
}

proof fn lemma_no_blanks(s: Seq<char>)
    requires
        forall|k: int| 0 <= k < s.len() ==> (#[trigger] s[k]) != ' ',
    ensures
        without_blanks(s) == s,
    decreases s.len(),
{
    if s.len() > 0 {
        assert(s[s.len() - 1] != ' ');
        lemma_no_blanks(s.drop_last());
        assert(s.drop_last().push(s.last()) =~= s);
    }
}

/// The parameters of a signature are those between its first opening parenthesis and the next
/// closing one; a signature without them has none.
pub proof fn parameters_stand_between_parentheses(
    front: Seq<char>,
    inner: Seq<char>,
    back: Seq<char>,
    lang: LangId,
)
    requires
        !front.contains('('),
        !inner.contains(')'),
    ensures
        parameters(front, lang) == Seq::<Seq<char>>::empty(),
        parameters(front.push('(') + inner + seq![')'] + back, lang) == param_names(
            param_parts(trimmed(inner), 0, Seq::empty()),
            lang,
        ),
{
    lemma_char_found(front, '(', 0);
    let s = front.push('(') + inner + seq![')'] + back;
    let p = front.len() as int;
    lemma_char_found(s, '(', 0);
    assert(s[p] == '(');
    let open = find_char_from(s, '(', 0)->0;
    if open < p {
        assert(s[open] == front[open]);
    }
    let q = p + 1 + inner.len();
    lemma_char_found(s, ')', p + 1);
    assert(s[q] == ')');
    let close = find_char_from(s, ')', p + 1)->0;
    if close < q {
        assert(s[close] == inner[close - p - 1]);
    }
    assert(s.subrange(p + 1, q) =~= inner);
}

} // verus!
