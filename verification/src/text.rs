//! Text as sequences of characters: white space, trimming, splitting, searching,
//! decimal numbers and the order of strings.
use vstd::prelude::*;
use vstd::slice::slice_subrange;
use vstd::utf8::{encode_utf8, encode_utf8_decode_utf8};

use crate::models::models;

verus! {

/// `String::push` appends one character.
pub assume_specification[ String::push ](s: &mut String, c: char)
    ensures
        final(s)@ == old(s)@.push(c),
;

/// The characters with the Unicode `White_Space` property.
pub open spec fn white_space(c: char) -> bool {
    ||| '\u{0009}' <= c <= '\u{000D}'
    ||| c == '\u{0020}'
    ||| c == '\u{0085}'
    ||| c == '\u{00A0}'
    ||| c == '\u{1680}'
    ||| '\u{2000}' <= c <= '\u{200A}'
    ||| c == '\u{2028}'
    ||| c == '\u{2029}'
    ||| c == '\u{202F}'
    ||| c == '\u{205F}'
    ||| c == '\u{3000}'
}

/// Whether `c` has the Unicode `White_Space` property.
pub fn is_white_space(c: char) -> (r: bool)
    ensures
        r == white_space(c),
{
    ('\u{0009}' <= c && c <= '\u{000D}') || c == '\u{0020}' || c == '\u{0085}' || c == '\u{00A0}'
        || c == '\u{1680}' || ('\u{2000}' <= c && c <= '\u{200A}') || c == '\u{2028}' || c
        == '\u{2029}' || c == '\u{202F}' || c == '\u{205F}' || c == '\u{3000}'
}

/// The characters of `s`, in order.
pub fn chars_of(s: &str) -> (r: Vec<char>)
    ensures
        r@ == s@,
{
    let mut out: Vec<char> = Vec::new();
    for c in it: s.chars()
        invariant
            it.seq() == s@,
            out@ == s@.subrange(0, it.index() as int),
    {
        out.push(c);
    }
    out
}

/// The string that holds `chars`.
pub fn string_of(chars: &[char]) -> (r: String)
    ensures
        r@ == chars@,
{
    let mut out = String::new();
    let mut i: usize = 0;
    while i < chars.len()
        invariant
            i <= chars.len(),
            out@ == chars@.subrange(0, i as int),
        decreases chars.len() - i,
    {
        out.push(chars[i]);
        i = i + 1;
    }
    out
}

/// A copy of `s` as an owned string.
pub fn owned(s: &str) -> (r: String)
    ensures
        r@ == s@,
{
    s.to_owned()
}

/// Whether two slices of characters are equal.
pub fn same_chars(a: &[char], b: &[char]) -> (r: bool)
    ensures
        r == (a@ == b@),
{
    if a.len() != b.len() {
        return false;
    }
    let mut i: usize = 0;
    while i < a.len()
        invariant
            a.len() == b.len(),
            i <= a.len(),
            forall|k: int| 0 <= k < i ==> a@[k] == b@[k],
        decreases a.len() - i,
    {
        if a[i] != b[i] {
            assert(a@[i as int] != b@[i as int]);
            return false;
        }
        i = i + 1;
    }
    assert(a@ =~= b@);
    true
}

/// Whether two strings are equal.
pub fn same(a: &str, b: &str) -> (r: bool)
    ensures
        r == (a@ == b@),
{
    let x = a.as_bytes();
    let y = b.as_bytes();
    if x.len() != y.len() {
        return false;
    }
    let mut i: usize = 0;
    while i < x.len()
        invariant
            x@ == encode_utf8(a@),
            y@ == encode_utf8(b@),
            x.len() == y.len(),
            i <= x.len(),
            forall|k: int| 0 <= k < i ==> x@[k] == y@[k],
        decreases x.len() - i,
    {
        if x[i] != y[i] {
            assert(x@[i as int] != y@[i as int]);
            return false;
        }
        i = i + 1;
    }
    proof {
        assert(x@ =~= y@);
        encode_utf8_decode_utf8(a@);
        encode_utf8_decode_utf8(b@);
    }
    true
}

/// The views of a list of strings.
pub open spec fn texts(v: Seq<String>) -> Seq<Seq<char>> {
    v.map_values(|s: String| s@)
}

/// Whether `list` holds a string equal to `s`.
pub fn contains_text(list: &Vec<String>, s: &str) -> (r: bool)
    ensures
        r == texts(list@).contains(s@),
        r == models(list@).contains(s@),
{
    assert(models(list@) =~= texts(list@));
    let mut i: usize = 0;
    while i < list.len()
        invariant
            models(list@) == texts(list@),
            i <= list.len(),
            forall|k: int| 0 <= k < i ==> list@[k]@ != s@,
        decreases list.len() - i,
    {
        if same(list[i].as_str(), s) {
            assert(texts(list@)[i as int] == s@);
            return true;
        }
        i = i + 1;
    }
    assert forall|k: int| 0 <= k < texts(list@).len() implies texts(list@)[k] != s@ by {
        assert(texts(list@)[k] == list@[k]@);
    }
    false
}

/// The views of a list of string slices.
pub open spec fn strs(v: Seq<&'static str>) -> Seq<Seq<char>> {
    v.map_values(|s: &'static str| s@)
}

/// Whether `list` holds a slice equal to `s`.
pub fn contains_str(list: &Vec<&'static str>, s: &str) -> (r: bool)
    ensures
        r == strs(list@).contains(s@),
{
    let ghost all = strs(list@);
    let mut i: usize = 0;
    while i < list.len()
        invariant
            i <= list.len(),
            all == strs(list@),
            forall|k: int| 0 <= k < i ==> all[k] != s@,
        decreases list.len() - i,
    {
        assert(all[i as int] == list@[i as int]@);
        if same(list[i], s) {
            return true;
        }
        i = i + 1;
    }
    false
}

/// Whether the slice starts with `prefix`.
pub fn chars_start_with(s: &[char], prefix: &[char]) -> (r: bool)
    ensures
        r == prefix@.is_prefix_of(s@),
{
    if prefix.len() > s.len() {
        return false;
    }
    let head = slice_subrange(s, 0, prefix.len());
    let r = same_chars(head, prefix);
    proof {
        assert(head@ == s@.take(prefix@.len() as int));
    }
    r
}

/// Whether `s` starts with `prefix`.
pub fn starts_with(s: &str, prefix: &str) -> (r: bool)
    ensures
        r == prefix@.is_prefix_of(s@),
{
    let a = chars_of(s);
    let b = chars_of(prefix);
    chars_start_with(a.as_slice(), b.as_slice())
}

/// Whether `s` ends with `suffix`.
pub fn ends_with(s: &str, suffix: &str) -> (r: bool)
    ensures
        r == suffix@.is_suffix_of(s@),
{
    let a = chars_of(s);
    let b = chars_of(suffix);
    if b.len() > a.len() {
        return false;
    }
    let tail = slice_subrange(a.as_slice(), a.len() - b.len(), a.len());
    let r = same_chars(tail, b.as_slice());
    proof {
        assert(tail@ == s@.subrange(s@.len() - suffix@.len(), s@.len() as int));
    }
    r
}

/// `s` without its leading white space.
pub open spec fn trimmed_start(s: Seq<char>) -> Seq<char>
    decreases s.len(),
{
    if s.len() > 0 && white_space(s[0]) {
        trimmed_start(s.drop_first())
    } else {
        s
    }
}

/// `s` without its trailing white space.
pub open spec fn trimmed_end(s: Seq<char>) -> Seq<char>
    decreases s.len(),
{
    if s.len() > 0 && white_space(s.last()) {
        trimmed_end(s.drop_last())
    } else {
        s
    }
}

/// `s` without its leading and trailing white space.
pub open spec fn trimmed(s: Seq<char>) -> Seq<char> {
    trimmed_end(trimmed_start(s))
}

/// The slice without its leading white space.
pub fn trim_start_chars(s: &[char]) -> (r: &[char])
    ensures
        r@ == trimmed_start(s@),
{
    let mut i: usize = 0;
    assert(s@.subrange(0, s@.len() as int) =~= s@);
    while i < s.len() && is_white_space(s[i])
        invariant
            i <= s.len(),
            trimmed_start(s@) == trimmed_start(s@.subrange(i as int, s@.len() as int)),
        decreases s.len() - i,
    {
        proof {
            let rest = s@.subrange(i as int, s@.len() as int);
            assert(rest.drop_first() =~= s@.subrange(i + 1, s@.len() as int));
        }
        i = i + 1;
    }
    slice_subrange(s, i, s.len())
}

/// The slice without its trailing white space.
pub fn trim_end_chars(s: &[char]) -> (r: &[char])
    ensures
        r@ == trimmed_end(s@),
{
    let mut n: usize = s.len();
    assert(s@.subrange(0, n as int) =~= s@);
    while n > 0 && is_white_space(s[n - 1])
        invariant
            n <= s.len(),
            trimmed_end(s@) == trimmed_end(s@.subrange(0, n as int)),
        decreases n,
    {
        proof {
            let rest = s@.subrange(0, n as int);
            assert(rest.drop_last() =~= s@.subrange(0, n - 1));
        }
        n = n - 1;
    }
    slice_subrange(s, 0, n)
}

/// The slice without its leading and trailing white space.
pub fn trim_chars(s: &[char]) -> (r: &[char])
    ensures
        r@ == trimmed(s@),
{
    trim_end_chars(trim_start_chars(s))
}

/// `s` without its leading and trailing white space, as an owned string.
pub fn trim(s: &str) -> (r: String)
    ensures
        r@ == trimmed(s@),
{
    let c = chars_of(s);
    string_of(trim_chars(c.as_slice()))
}

/// The first index at or after `from` at which `needle` occurs in `s`.
pub open spec fn find_from(s: Seq<char>, needle: Seq<char>, from: int) -> Option<int>
    decreases s.len() + 1 - from,
{
    if from < 0 || from + needle.len() > s.len() {
        None
    } else if s.subrange(from, from + needle.len()) == needle {
        Some(from)
    } else {
        find_from(s, needle, from + 1)
    }
}

/// Whether `needle` occurs in `s`.
pub open spec fn occurs(s: Seq<char>, needle: Seq<char>) -> bool {
    find_from(s, needle, 0) is Some
}

/// `find_from` returns the least index of an occurrence, if there is one.
pub proof fn lemma_find_from(s: Seq<char>, needle: Seq<char>, from: int)
    requires
        0 <= from,
    ensures
        match find_from(s, needle, from) {
            Some(i) => {
                &&& from <= i <= s.len() - needle.len()
                &&& s.subrange(i, i + needle.len()) == needle
                &&& forall|k: int|
                    from <= k < i ==> #[trigger] s.subrange(k, k + needle.len()) != needle
            },
            None => forall|k: int|
                from <= k <= s.len() - needle.len() ==> #[trigger] s.subrange(k, k + needle.len())
                    != needle,
        },
    decreases s.len() + 1 - from,
{
    if from + needle.len() > s.len() {
    } else if s.subrange(from, from + needle.len()) == needle {
    } else {
        lemma_find_from(s, needle, from + 1);
    }
}

/// The first index at or after `from` at which `needle` occurs in `s`.
pub fn find_chars(s: &[char], needle: &[char], from: usize) -> (r: Option<usize>)
    ensures
        match r {
            Some(i) => find_from(s@, needle@, from as int) == Some(i as int),
            None => find_from(s@, needle@, from as int) is None,
        },
        r is Some ==> from <= r->0 <= s.len() - needle.len(),
{
    if needle.len() > s.len() {
        return None;
    }
    let last: usize = s.len() - needle.len();
    let mut i: usize = from;
    while i <= last
        invariant
            needle.len() <= s.len(),
            last == s.len() - needle.len(),
            from <= i,
            find_from(s@, needle@, from as int) == find_from(s@, needle@, i as int),
        decreases last + 1 - i,
    {
        let window = slice_subrange(s, i, i + needle.len());
        if same_chars(window, needle) {
            return Some(i);
        }
        if i == last {
            assert(find_from(s@, needle@, i + 1) is None);
            return None;
        }
        i = i + 1;
    }
    None
}

/// Whether `needle` occurs in `s`.
pub fn contains(s: &str, needle: &str) -> (r: bool)
    ensures
        r == occurs(s@, needle@),
{
    let a = chars_of(s);
    let b = chars_of(needle);
    find_chars(a.as_slice(), b.as_slice(), 0).is_some()
}

/// `s` with every occurrence of `needle` replaced, from the first on and none inside
/// another.
pub open spec fn substituted(s: Seq<char>, needle: Seq<char>, by: Seq<char>) -> Seq<char>
    decreases s.len(),
{
    match find_from(s, needle, 0) {
        Some(i) => if needle.len() > 0 && 0 <= i <= s.len() - needle.len() {
            s.subrange(0, i) + by + substituted(
                s.subrange(i + needle.len(), s.len() as int),
                needle,
                by,
            )
        } else {
            s
        },
        None => s,
    }
}

/// How often `needle` occurs in `s`, where none lies inside another.
pub open spec fn occurrence_count(s: Seq<char>, needle: Seq<char>) -> nat
    decreases s.len(),
{
    match find_from(s, needle, 0) {
        Some(i) => if needle.len() > 0 && 0 <= i <= s.len() - needle.len() {
            1 + occurrence_count(s.subrange(i + needle.len(), s.len() as int), needle)
        } else {
            0
        },
        None => 0,
    }
}

/// `s` with every occurrence of `needle` replaced, and how many there were.
pub fn substitute(text: &str, needle: &str, by: &str) -> (r: (String, usize))
    requires
        needle@.len() > 0,
    ensures
        r.0@ == substituted(text@, needle@, by@),
        r.1 == occurrence_count(text@, needle@),
{
    let s = chars_of(text);
    let n = chars_of(needle);
    let mut out = String::new();
    let mut count: usize = 0;
    let mut start: usize = 0;
    assert(s@.subrange(0, s@.len() as int) =~= s@);
    assert(out@ + substituted(s@, n@, by@) =~= substituted(s@, n@, by@));
    loop
        invariant
            n@ == needle@,
            n@.len() > 0,
            s@ == text@,
            start <= s@.len(),
            count <= start,
            out@ + substituted(s@.subrange(start as int, s@.len() as int), n@, by@)
                == substituted(s@, n@, by@),
            count + occurrence_count(s@.subrange(start as int, s@.len() as int), n@)
                == occurrence_count(s@, n@),
        decreases s@.len() - start,
    {
        let rest = slice_subrange(s.as_slice(), start, s.len());
        match find_chars(rest, n.as_slice(), 0) {
            Some(i) => {
                let ghost before = out@;
                let head = string_of(slice_subrange(rest, 0, i));
                out.append(head.as_str());
                out.append(by);
                proof {
                    let behind = rest@.subrange(i + n@.len(), rest@.len() as int);
                    assert(behind =~= s@.subrange(start + i + n@.len(), s@.len() as int));
                    let more = substituted(behind, n@, by@);
                    assert(before + (rest@.subrange(0, i as int) + by@ + more) =~= before
                        + rest@.subrange(0, i as int) + by@ + more);
                }
                count = count + 1;
                start = start + i + n.len();
            },
            None => {
                let ghost before = out@;
                out.append(string_of(rest).as_str());
                assert(out@ =~= before + rest@);
                return (out, count);
            },
        }
    }
}

/// The first index at or after `from` that holds `c`.
pub open spec fn find_char_from(s: Seq<char>, c: char, from: int) -> Option<int>
    decreases s.len() - from,
{
    if from < 0 || from >= s.len() {
        None
    } else if s[from] == c {
        Some(from)
    } else {
        find_char_from(s, c, from + 1)
    }
}

/// The first index at or after `from` that holds `c`.
pub fn find_char(s: &[char], c: char, from: usize) -> (r: Option<usize>)
    ensures
        match r {
            Some(i) => find_char_from(s@, c, from as int) == Some(i as int) && from <= i < s.len()
                && s@[i as int] == c,
            None => find_char_from(s@, c, from as int) is None,
        },
{
    let mut i: usize = from;
    while i < s.len()
        invariant
            from <= i,
            find_char_from(s@, c, from as int) == find_char_from(s@, c, i as int),
        decreases s.len() - i,
    {
        if s[i] == c {
            return Some(i);
        }
        i = i + 1;
    }
    None
}

/// The parts of `s` between the occurrences of `sep`, in order; always at least one.
pub open spec fn split_on(s: Seq<char>, sep: char) -> Seq<Seq<char>>
    decreases s.len(),
{
    match find_char_from(s, sep, 0) {
        Some(i) => if 0 <= i < s.len() {
            seq![s.subrange(0, i)] + split_on(s.subrange(i + 1, s.len() as int), sep)
        } else {
            seq![s]
        },
        None => seq![s],
    }
}

/// The index that is found is the first one that holds the character.
pub proof fn lemma_char_found(s: Seq<char>, c: char, from: int)
    requires
        0 <= from,
    ensures
        match find_char_from(s, c, from) {
            Some(i) => from <= i < s.len() && s[i] == c && forall|k: int|
                from <= k < i ==> s[k] != c,
            None => forall|k: int| from <= k < s.len() ==> s[k] != c,
        },
    decreases s.len() - from,
{
    if from < s.len() && s[from] != c {
        lemma_char_found(s, c, from + 1);
    }
}

/// What stands in front of a character and does not hold it is passed over.
pub proof fn lemma_char_behind(s: Seq<char>, c: char, rest: Seq<char>)
    requires
        !s.contains(c),
        rest.len() > 0,
        rest[0] == c,
    ensures
        find_char_from(s + rest, c, 0) == Some(s.len() as int),
{
    lemma_char_found(s + rest, c, 0);
    assert((s + rest)[s.len() as int] == c);
    let i = find_char_from(s + rest, c, 0)->0;
    if i < s.len() {
        assert(s[i] == c);
    }
}

/// No part between the occurrences of `sep` holds it.
pub proof fn lemma_split_parts(s: Seq<char>, sep: char)
    ensures
        forall|i: int|
            0 <= i < split_on(s, sep).len() ==> !(#[trigger] split_on(s, sep)[i]).contains(sep),
    decreases s.len(),
{
    lemma_char_found(s, sep, 0);
    match find_char_from(s, sep, 0) {
        Some(i) => {
            let rest = s.subrange(i + 1, s.len() as int);
            lemma_split_parts(rest, sep);
            let parts = split_on(s, sep);
            assert forall|k: int| 0 <= k < parts.len() implies !(#[trigger] parts[k]).contains(
                sep,
            ) by {
                if k > 0 {
                    assert(parts[k] == split_on(rest, sep)[k - 1]);
                }
            }
        },
        None => {},
    }
}

/// The parts of `s` between the occurrences of `sep`, in order.
pub fn split_chars(s: &[char], sep: char) -> (r: Vec<String>)
    ensures
        texts(r@) == split_on(s@, sep),
{
    let mut out: Vec<String> = Vec::new();
    let mut start: usize = 0;
    assert(s@.subrange(0, s@.len() as int) =~= s@);
    assert(texts(out@) + split_on(s@, sep) =~= split_on(s@, sep));
    loop
        invariant
            start <= s.len(),
            texts(out@) + split_on(s@.subrange(start as int, s@.len() as int), sep) == split_on(
                s@,
                sep,
            ),
        decreases s.len() - start,
    {
        let rest = slice_subrange(s, start, s.len());
        let ghost before = texts(out@);
        match find_char(rest, sep, 0) {
            Some(i) => {
                let part = slice_subrange(rest, 0, i);
                out.push(string_of(part));
                proof {
                    assert(texts(out@) =~= before.push(part@));
                    assert(rest@.subrange(i + 1, rest@.len() as int) =~= s@.subrange(
                        start + i + 1,
                        s@.len() as int,
                    ));
                    let tail = split_on(rest@.subrange(i + 1, rest@.len() as int), sep);
                    assert(before + (seq![part@] + tail) =~= before.push(part@) + tail);
                }
                start = start + i + 1;
            },
            None => {
                out.push(string_of(rest));
                proof {
                    assert(texts(out@) =~= before.push(rest@));
                    assert(before + seq![rest@] =~= before.push(rest@));
                }
                return out;
            },
        }
    }
}

/// `line` without one trailing carriage return.
pub open spec fn without_cr(line: Seq<char>) -> Seq<char> {
    if line.len() > 0 && line.last() == '\r' {
        line.drop_last()
    } else {
        line
    }
}

/// The lines of `s`: ended by a line feed, or a carriage return and a line feed; a
/// last line feed is optional. A carriage return that no line feed follows is kept.
pub open spec fn lines_of(s: Seq<char>) -> Seq<Seq<char>>
    decreases s.len(),
{
    if s.len() == 0 {
        Seq::empty()
    } else {
        match find_char_from(s, '\n', 0) {
            Some(i) => if 0 <= i < s.len() {
                seq![without_cr(s.subrange(0, i))] + lines_of(s.subrange(i + 1, s.len() as int))
            } else {
                seq![s]
            },
            None => seq![s],
        }
    }
}

/// The lines of `s`.
pub fn lines(text: &str) -> (r: Vec<String>)
    ensures
        texts(r@) == lines_of(text@),
{
    let c = chars_of(text);
    let s = c.as_slice();
    let mut out: Vec<String> = Vec::new();
    let mut start: usize = 0;
    assert(s@.subrange(0, s@.len() as int) =~= s@);
    assert(texts(out@) + lines_of(s@) =~= lines_of(s@));
    while start < s.len()
        invariant
            s@ == text@,
            start <= s.len(),
            texts(out@) + lines_of(s@.subrange(start as int, s@.len() as int)) == lines_of(s@),
        decreases s.len() - start,
    {
        let rest = slice_subrange(s, start, s.len());
        let ghost before = texts(out@);
        match find_char(rest, '\n', 0) {
            Some(i) => {
                let end: usize = if i > 0 && rest[i - 1] == '\r' {
                    i - 1
                } else {
                    i
                };
                let part = slice_subrange(rest, 0, end);
                out.push(string_of(part));
                proof {
                    assert(texts(out@) =~= before.push(part@));
                    assert(part@ =~= without_cr(rest@.subrange(0, i as int)));
                    assert(rest@.subrange(i + 1, rest@.len() as int) =~= s@.subrange(
                        start + i + 1,
                        s@.len() as int,
                    ));
                    let tail = lines_of(rest@.subrange(i + 1, rest@.len() as int));
                    assert(before + (seq![part@] + tail) =~= before.push(part@) + tail);
                }
                start = start + i + 1;
            },
            None => {
                out.push(string_of(rest));
                proof {
                    assert(texts(out@) =~= before.push(rest@));
                    assert(before + seq![rest@] =~= before.push(rest@));
                }
                return out;
            },
        }
    }
    assert(s@.subrange(start as int, s@.len() as int).len() == 0);
    assert(texts(out@) + Seq::<Seq<char>>::empty() =~= texts(out@));
    out
}

/// `parts` with `sep` between every two of them.
pub open spec fn joined(parts: Seq<Seq<char>>, sep: Seq<char>) -> Seq<char>
    decreases parts.len(),
{
    if parts.len() == 0 {
        Seq::empty()
    } else if parts.len() == 1 {
        parts[0]
    } else {
        joined(parts.drop_last(), sep) + sep + parts.last()
    }
}

/// The first of several parts stands first, with a separator behind it.
pub proof fn lemma_joined_front(parts: Seq<Seq<char>>, sep: Seq<char>)
    requires
        parts.len() >= 2,
    ensures
        joined(parts, sep) == parts[0] + sep + joined(parts.drop_first(), sep),
    decreases parts.len(),
{
    let rest = parts.drop_first();
    if parts.len() == 2 {
        assert(joined(parts.drop_last(), sep) == parts[0]);
        assert(joined(rest, sep) == parts[1]);
    } else {
        lemma_joined_front(parts.drop_last(), sep);
        assert(parts.drop_last().drop_first() =~= rest.drop_last());
        assert(joined(rest, sep) == joined(rest.drop_last(), sep) + sep + parts.last());
        assert(joined(parts, sep) =~= parts[0] + sep + joined(rest, sep));
    }
}

/// The strings of `parts` with `sep` between every two of them.
pub fn join(parts: &Vec<String>, sep: &str) -> (r: String)
    ensures
        r@ == joined(texts(parts@), sep@),
{
    let mut out = String::new();
    let mut i: usize = 0;
    assert(texts(parts@).take(0) =~= Seq::<Seq<char>>::empty());
    while i < parts.len()
        invariant
            i <= parts.len(),
            out@ == joined(texts(parts@).take(i as int), sep@),
        decreases parts.len() - i,
    {
        proof {
            let now = texts(parts@).take(i as int + 1);
            assert(now.drop_last() =~= texts(parts@).take(i as int));
            assert(now.last() == parts@[i as int]@);
        }
        if i > 0 {
            out.append(sep);
        }
        out.append(parts[i].as_str());
        assert(out@ =~= joined(texts(parts@).take(i as int + 1), sep@));
        i = i + 1;
    }
    assert(texts(parts@).take(parts@.len() as int) =~= texts(parts@));
    out
}

/// The lower-case form of an ASCII letter; every other character stays.
pub open spec fn ascii_lower(c: char) -> char {
    if 'A' <= c <= 'Z' {
        (c as u32 + 32) as char
    } else {
        c
    }
}

/// `s` with its ASCII letters in lower case.
pub open spec fn ascii_lowered(s: Seq<char>) -> Seq<char> {
    s.map_values(|c: char| ascii_lower(c))
}

/// `s` with its ASCII letters in lower case.
pub fn to_ascii_lower(s: &str) -> (r: String)
    ensures
        r@ == ascii_lowered(s@),
{
    let c = chars_of(s);
    let mut out = String::new();
    let mut i: usize = 0;
    while i < c.len()
        invariant
            i <= c.len(),
            out@.len() == i,
            forall|k: int| 0 <= k < i ==> #[trigger] out@[k] == ascii_lower(c@[k]),
        decreases c.len() - i,
    {
        if 'A' <= c[i] && c[i] <= 'Z' {
            out.push((c[i] as u8 + 32) as char);
        } else {
            out.push(c[i]);
        }
        i = i + 1;
    }
    assert(out@ =~= ascii_lowered(s@));
    out
}

/// `s` without its leading occurrences of `c`.
pub open spec fn without_leading(s: Seq<char>, c: char) -> Seq<char>
    decreases s.len(),
{
    if s.len() > 0 && s[0] == c {
        without_leading(s.drop_first(), c)
    } else {
        s
    }
}

/// `s` without its leading occurrences of `c`.
pub fn strip_leading(s: &[char], c: char) -> (r: &[char])
    ensures
        r@ == without_leading(s@, c),
{
    let mut i: usize = 0;
    assert(s@.subrange(0, s@.len() as int) =~= s@);
    while i < s.len() && s[i] == c
        invariant
            i <= s.len(),
            without_leading(s@, c) == without_leading(s@.subrange(i as int, s@.len() as int), c),
        decreases s.len() - i,
    {
        proof {
            let rest = s@.subrange(i as int, s@.len() as int);
            assert(rest.drop_first() =~= s@.subrange(i + 1, s@.len() as int));
        }
        i = i + 1;
    }
    slice_subrange(s, i, s.len())
}

/// `s` without its trailing occurrences of `c`.
pub open spec fn without_trailing(s: Seq<char>, c: char) -> Seq<char>
    decreases s.len(),
{
    if s.len() > 0 && s.last() == c {
        without_trailing(s.drop_last(), c)
    } else {
        s
    }
}

/// `s` without its trailing occurrences of `c`.
pub fn strip_trailing(s: &[char], c: char) -> (r: &[char])
    ensures
        r@ == without_trailing(s@, c),
{
    let mut n: usize = s.len();
    assert(s@.subrange(0, n as int) =~= s@);
    while n > 0 && s[n - 1] == c
        invariant
            n <= s.len(),
            without_trailing(s@, c) == without_trailing(s@.subrange(0, n as int), c),
        decreases n,
    {
        proof {
            let rest = s@.subrange(0, n as int);
            assert(rest.drop_last() =~= s@.subrange(0, n - 1));
        }
        n = n - 1;
    }
    slice_subrange(s, 0, n)
}

/// Trimming the start leaves an end of the text.
pub proof fn lemma_trimmed_start_is_suffix(s: Seq<char>)
    ensures
        trimmed_start(s).len() <= s.len(),
        trimmed_start(s) == s.skip(s.len() - trimmed_start(s).len()),
    decreases s.len(),
{
    if s.len() > 0 && white_space(s[0]) {
        lemma_trimmed_start_is_suffix(s.drop_first());
        let n = trimmed_start(s).len() as int;
        assert(s.drop_first().skip(s.len() - 1 - n) =~= s.skip(s.len() - n));
    } else {
        assert(s.skip(0) =~= s);
    }
}

/// The white space that `s` starts with.
pub open spec fn leading_space(s: Seq<char>) -> Seq<char> {
    s.take(s.len() - trimmed_start(s).len())
}

/// The white space that `s` starts with.
pub fn indentation(s: &str) -> (r: String)
    ensures
        r@ == leading_space(s@),
{
    let c = chars_of(s);
    let rest = trim_start_chars(c.as_slice());
    proof {
        lemma_trimmed_start_is_suffix(s@);
    }
    string_of(slice_subrange(c.as_slice(), 0, c.len() - rest.len()))
}

/// The decimal digit of a number below ten.
pub open spec fn digit_char(d: nat) -> char {
    if d == 0 {
        '0'
    } else if d == 1 {
        '1'
    } else if d == 2 {
        '2'
    } else if d == 3 {
        '3'
    } else if d == 4 {
        '4'
    } else if d == 5 {
        '5'
    } else if d == 6 {
        '6'
    } else if d == 7 {
        '7'
    } else if d == 8 {
        '8'
    } else {
        '9'
    }
}

/// The decimal digits of `n`, without leading zeros.
pub open spec fn decimal(n: nat) -> Seq<char>
    decreases n,
{
    if n < 10 {
        seq![digit_char(n)]
    } else {
        decimal(n / 10).push(digit_char(n % 10))
    }
}

fn digit(d: u64) -> (r: char)
    requires
        d < 10,
    ensures
        r == digit_char(d as nat),
{
    if d == 0 {
        '0'
    } else if d == 1 {
        '1'
    } else if d == 2 {
        '2'
    } else if d == 3 {
        '3'
    } else if d == 4 {
        '4'
    } else if d == 5 {
        '5'
    } else if d == 6 {
        '6'
    } else if d == 7 {
        '7'
    } else if d == 8 {
        '8'
    } else {
        '9'
    }
}

/// The decimal digits of `n`.
pub fn decimal_text(n: u64) -> (r: String)
    ensures
        r@ == decimal(n as nat),
    decreases n,
{
    if n < 10 {
        let mut s = String::new();
        s.push(digit(n));
        assert(s@ =~= decimal(n as nat));
        s
    } else {
        let mut s = decimal_text(n / 10);
        s.push(digit(n % 10));
        s
    }
}

/// The value of a run of decimal digits, or `None` where a character is no digit.
pub open spec fn digits_value(s: Seq<char>) -> Option<nat>
    decreases s.len(),
{
    if s.len() == 0 {
        Some(0)
    } else if '0' <= s.last() <= '9' {
        match digits_value(s.drop_last()) {
            Some(v) => Some(v * 10 + (s.last() as nat - '0' as nat) as nat),
            None => None,
        }
    } else {
        None
    }
}

/// The value of a signed decimal number: an optional sign and at least one digit.
pub open spec fn signed_value(s: Seq<char>) -> Option<int> {
    let negative = s.len() > 0 && s[0] == '-';
    let digits = if s.len() > 0 && (s[0] == '-' || s[0] == '+') {
        s.drop_first()
    } else {
        s
    };
    if digits.len() == 0 {
        None
    } else {
        match digits_value(digits) {
            Some(v) => Some(
                if negative {
                    -(v as int)
                } else {
                    v as int
                },
            ),
            None => None,
        }
    }
}

proof fn lemma_digits_value_grows(s: Seq<char>, n: int)
    requires
        0 <= n <= s.len(),
    ensures
        digits_value(s) is Some ==> digits_value(s.take(n)) is Some && digits_value(s.take(n))->0
            <= digits_value(s)->0,
    decreases s.len(),
{
    if n < s.len() {
        lemma_digits_value_grows(s.drop_last(), n);
        assert(s.drop_last().take(n) =~= s.take(n));
    } else {
        assert(s.take(n) =~= s);
    }
}

/// The value of a signed decimal number, where it fits in 32 bits.
pub fn parse_i32(text: &str) -> (r: Option<i32>)
    ensures
        match r {
            Some(n) => signed_value(text@) == Some(n as int),
            None => match signed_value(text@) {
                Some(v) => !(i32::MIN <= v <= i32::MAX),
                None => true,
            },
        },
{
    let c = chars_of(text);
    let negative = c.len() > 0 && c[0] == '-';
    let start: usize = if c.len() > 0 && (c[0] == '-' || c[0] == '+') {
        1
    } else {
        0
    };
    if start == c.len() {
        return None;
    }
    let ghost digits = c@.skip(start as int);
    assert(start == 1 ==> digits =~= c@.drop_first());
    assert(start == 0 ==> digits =~= c@);
    let mut v: i64 = 0;
    let mut i: usize = start;
    while i < c.len()
        invariant
            start <= i <= c.len(),
            digits == c@.skip(start as int),
            digits_value(digits.take(i - start)) == Some(v as nat),
            0 <= v <= 2147483648,
            c@ == text@,
            digits.len() > 0,
            digits == (if text@.len() > 0 && (text@[0] == '-' || text@[0] == '+') {
                text@.drop_first()
            } else {
                text@
            }),
        decreases c.len() - i,
    {
        let d = c[i];
        let ghost now = digits.take(i - start + 1);
        assert(now.drop_last() =~= digits.take(i - start));
        assert(now.last() == d);
        proof {
            lemma_digits_value_grows(digits, i - start + 1);
        }
        if d < '0' || d > '9' {
            assert(digits_value(now) is None);
            return None;
        }
        let x: i64 = d as i64 - '0' as i64;
        v = v * 10 + x;
        if v > 2147483648 {
            return None;
        }
        i = i + 1;
    }
    assert(digits.take(i - start) =~= digits);
    if negative {
        Some((-v) as i32)
    } else if v <= 2147483647 {
        Some(v as i32)
    } else {
        None
    }
}

/// The value of an unsigned decimal number: an optional plus sign and at least one digit.
pub open spec fn unsigned_value(s: Seq<char>) -> Option<nat> {
    let digits = if s.len() > 0 && s[0] == '+' {
        s.drop_first()
    } else {
        s
    };
    if digits.len() == 0 {
        None
    } else {
        digits_value(digits)
    }
}

/// The value of an unsigned decimal number, where it fits in 32 bits.
pub fn parse_u32(text: &str) -> (r: Option<u32>)
    ensures
        match r {
            Some(n) => unsigned_value(text@) == Some(n as nat),
            None => match unsigned_value(text@) {
                Some(v) => v > u32::MAX,
                None => true,
            },
        },
{
    let c = chars_of(text);
    let start: usize = if c.len() > 0 && c[0] == '+' {
        1
    } else {
        0
    };
    if start == c.len() {
        return None;
    }
    let ghost digits = c@.skip(start as int);
    assert(start == 1 ==> digits =~= c@.drop_first());
    assert(start == 0 ==> digits =~= c@);
    let mut v: u64 = 0;
    let mut i: usize = start;
    while i < c.len()
        invariant
            start <= i <= c.len(),
            digits == c@.skip(start as int),
            digits_value(digits.take(i - start)) == Some(v as nat),
            v <= u32::MAX,
            c@ == text@,
            digits.len() > 0,
            digits == (if text@.len() > 0 && text@[0] == '+' {
                text@.drop_first()
            } else {
                text@
            }),
        decreases c.len() - i,
    {
        let d = c[i];
        let ghost now = digits.take(i - start + 1);
        assert(now.drop_last() =~= digits.take(i - start));
        assert(now.last() == d);
        proof {
            lemma_digits_value_grows(digits, i - start + 1);
        }
        if d < '0' || d > '9' {
            assert(digits_value(now) is None);
            return None;
        }
        let x: u64 = d as u64 - '0' as u64;
        v = v * 10 + x;
        if v > u32::MAX as u64 {
            return None;
        }
        i = i + 1;
    }
    assert(digits.take(i - start) =~= digits);
    Some(v as u32)
}

/// Whether `a` comes before `b` in the order of strings, which is the order of
/// their first different characters, with a prefix before what it starts.
pub open spec fn text_lt(a: Seq<char>, b: Seq<char>) -> bool
    decreases a.len(),
{
    if b.len() == 0 {
        false
    } else if a.len() == 0 {
        true
    } else if a[0] != b[0] {
        a[0] < b[0]
    } else {
        text_lt(a.drop_first(), b.drop_first())
    }
}

/// The order of strings is irreflexive and total on different strings.
pub proof fn lemma_text_order(a: Seq<char>, b: Seq<char>)
    ensures
        !(text_lt(a, b) && text_lt(b, a)),
        a != b ==> text_lt(a, b) || text_lt(b, a),
        a == b ==> !text_lt(a, b),
    decreases a.len(),
{
    if a.len() > 0 && b.len() > 0 && a[0] == b[0] {
        let x = a.drop_first();
        let y = b.drop_first();
        lemma_text_order(x, y);
        assert(text_lt(a, b) == text_lt(x, y));
        assert(text_lt(b, a) == text_lt(y, x));
        if x == y {
            assert(a =~= seq![a[0]] + x);
            assert(b =~= seq![b[0]] + y);
        }
    } else if a.len() == 0 && b.len() == 0 {
        assert(a =~= b);
    }
}

/// The order of strings is transitive.
pub proof fn lemma_text_lt_transitive(a: Seq<char>, b: Seq<char>, c: Seq<char>)
    requires
        text_lt(a, b),
        text_lt(b, c),
    ensures
        text_lt(a, c),
    decreases a.len(),
{
    if a.len() > 0 && b.len() > 0 && c.len() > 0 && a[0] == b[0] && b[0] == c[0] {
        lemma_text_lt_transitive(a.drop_first(), b.drop_first(), c.drop_first());
    }
}

/// Whether `a` comes before `b` in the order of strings.
pub fn less(a: &str, b: &str) -> (r: bool)
    ensures
        r == text_lt(a@, b@),
{
    let x = chars_of(a);
    let y = chars_of(b);
    let mut i: usize = 0;
    assert(x@.skip(0) =~= x@);
    assert(y@.skip(0) =~= y@);
    while i < x.len() && i < y.len() && x[i] == y[i]
        invariant
            i <= x.len(),
            i <= y.len(),
            text_lt(x@, y@) == text_lt(x@.skip(i as int), y@.skip(i as int)),
        decreases x.len() - i,
    {
        assert(x@.skip(i as int).drop_first() =~= x@.skip(i + 1));
        assert(y@.skip(i as int).drop_first() =~= y@.skip(i + 1));
        i = i + 1;
    }
    if i >= y.len() {
        false
    } else if i >= x.len() {
        true
    } else {
        x[i] < y[i]
    }
}

/// Two texts, one after the other.
pub fn text2(a: &str, b: &str) -> (r: String)
    ensures
        r@ == a@ + b@,
{
    let mut s = owned(a);
    s.append(b);
    s
}

/// Three texts, one after the other.
pub fn text3(a: &str, b: &str, c: &str) -> (r: String)
    ensures
        r@ == a@ + b@ + c@,
{
    let mut s = owned(a);
    s.append(b);
    s.append(c);
    s
}

/// Four texts, one after the other.
pub fn text4(a: &str, b: &str, c: &str, d: &str) -> (r: String)
    ensures
        r@ == a@ + b@ + c@ + d@,
{
    let mut s = owned(a);
    s.append(b);
    s.append(c);
    s.append(d);
    s
}

/// Five texts, one after the other.
pub fn text5(a: &str, b: &str, c: &str, d: &str, e: &str) -> (r: String)
    ensures
        r@ == a@ + b@ + c@ + d@ + e@,
{
    let mut s = owned(a);
    s.append(b);
    s.append(c);
    s.append(d);
    s.append(e);
    s
}

/// A substitution leaves what stands before the first place at which a text occurs, puts the other
/// text in its place, and goes on behind it; a text in which it does not occur stays as it is.
/// Every place counts once.
pub proof fn substitutions_are_made_place_by_place(
    s: Seq<char>,
    needle: Seq<char>,
    by: Seq<char>,
    i: int,
)
    requires
        needle.len() > 0,
        forall|k: int|
            0 <= k < i && k <= s.len() - needle.len() ==> #[trigger] s.subrange(
                k,
                k + needle.len(),
            ) != needle,
        0 <= i,
        i <= s.len() - needle.len() ==> s.subrange(i, i + needle.len()) == needle,
    ensures
        i <= s.len() - needle.len() ==> substituted(s, needle, by) == s.take(i) + by + substituted(
            s.skip(i + needle.len()),
            needle,
            by,
        ) && occurrence_count(s, needle) == 1 + occurrence_count(s.skip(i + needle.len()), needle),
        i > s.len() - needle.len() ==> substituted(s, needle, by) == s && occurrence_count(
            s,
            needle,
        ) == 0,
{
    lemma_find_from(s, needle, 0);
    match find_from(s, needle, 0) {
        Some(k) => {
            assert(s.subrange(k, k + needle.len()) == needle);
            assert(k == i);
            assert(s.subrange(0, i) =~= s.take(i));
            assert(s.subrange(i + needle.len(), s.len() as int) =~= s.skip(i + needle.len()));
        },
        None => {
            if i <= s.len() - needle.len() {
                assert(s.subrange(i, i + needle.len()) != needle);
            }
        },
    }
}

/// A text without white space around it starts and ends with something else, and is what is left
/// between white space.
pub proof fn trimming_drops_white_space_alone(s: Seq<char>)
    ensures
        ({
            let t = trimmed(s);
            &&& t.len() > 0 ==> !white_space(t[0]) && !white_space(t.last())
            &&& exists|i: int|
                #![trigger s.subrange(i, i + t.len())]
                {
                    &&& 0 <= i && i + t.len() <= s.len()
                    &&& s.subrange(i, i + t.len()) == t
                    &&& forall|k: int| 0 <= k < i ==> white_space(#[trigger] s[k])
                    &&& forall|k: int| i + t.len() <= k < s.len() ==> white_space(#[trigger] s[k])
                }
        }),
{
    let a = trimmed_start(s);
    lemma_start_space(s);
    lemma_end_space(a);
    let i = s.len() - a.len();
    let t = trimmed(s);
    lemma_trimmed_start_is_suffix(s);
    assert(s.subrange(i, i + t.len()) =~= t) by {
        assert(a =~= s.skip(i));
    }
    assert forall|k: int| i + t.len() <= k < s.len() implies white_space(#[trigger] s[k]) by {
        assert(s[k] == a[k - i]);
    }
}

proof fn lemma_start_space(s: Seq<char>)
    ensures
        trimmed_start(s).len() <= s.len(),
        forall|k: int|
            0 <= k < s.len() - trimmed_start(s).len() ==> white_space(#[trigger] s[k]),
        trimmed_start(s).len() > 0 ==> !white_space(trimmed_start(s)[0]),
    decreases s.len(),
{
    if s.len() > 0 && white_space(s[0]) {
        let r = s.drop_first();
        lemma_start_space(r);
        assert forall|k: int| 0 <= k < s.len() - trimmed_start(s).len() implies white_space(
            #[trigger] s[k],
        ) by {
            if k > 0 {
                assert(s[k] == r[k - 1]);
            }
        }
    }
}

proof fn lemma_end_space(s: Seq<char>)
    ensures
        trimmed_end(s).len() <= s.len(),
        trimmed_end(s) == s.take(trimmed_end(s).len() as int),
        forall|k: int| trimmed_end(s).len() <= k < s.len() ==> white_space(#[trigger] s[k]),
        trimmed_end(s).len() > 0 ==> !white_space(trimmed_end(s).last()) && trimmed_end(s)[0]
            == s[0],
    decreases s.len(),
{
    if s.len() > 0 && white_space(s.last()) {
        let r = s.drop_last();
        lemma_end_space(r);
        assert(trimmed_end(s) =~= s.take(trimmed_end(s).len() as int));
        assert forall|k: int| trimmed_end(s).len() <= k < s.len() implies white_space(
            #[trigger] s[k],
        ) by {
            if k < r.len() {
                assert(s[k] == r[k]);
            }
        }
    } else {
        assert(trimmed_end(s) =~= s.take(s.len() as int));
    }
}

/// The parts of a text are what stands between the separators: put together again with the
/// separators they are the text.
pub proof fn parts_make_up_the_text(s: Seq<char>, sep: char)
    ensures
        joined(split_on(s, sep), seq![sep]) == s,
        split_on(s, sep).len() >= 1,
    decreases s.len(),
{
    lemma_char_found(s, sep, 0);
    match find_char_from(s, sep, 0) {
        Some(i) => {
            let rest = s.subrange(i + 1, s.len() as int);
            parts_make_up_the_text(rest, sep);
            let all = split_on(s, sep);
            assert(all.drop_first() =~= split_on(rest, sep));
            lemma_joined_front(all, seq![sep]);
            assert(s.subrange(0, i) + seq![sep] + rest =~= s);
        },
        None => {},
    }
}

/// A line ends at a line feed; a carriage return before it is no part of the line, and a text
/// without line feeds is one line.
pub proof fn lines_end_at_line_feeds(line: Seq<char>, rest: Seq<char>)
    requires
        !line.contains('\n'),
    ensures
        line.len() == 0 || line.last() != '\r' ==> lines_of(line.push('\n') + rest) == seq![line]
            + lines_of(rest),
        lines_of(line.push('\r').push('\n') + rest) == seq![line] + lines_of(rest),
        line.len() > 0 ==> lines_of(line) == seq![line],
        lines_of(Seq::empty()) == Seq::<Seq<char>>::empty(),
{
    let a = line.push('\n') + rest;
    assert(a =~= line + (seq!['\n'] + rest));
    lemma_char_behind(line, '\n', seq!['\n'] + rest);
    assert(a.subrange(0, line.len() as int) =~= line);
    assert(a.subrange(line.len() as int + 1, a.len() as int) =~= rest);
    let cr = line.push('\r');
    let b = cr.push('\n') + rest;
    assert(b =~= cr + (seq!['\n'] + rest));
    assert(!cr.contains('\n')) by {
        if cr.contains('\n') {
            let i = choose|i: int| 0 <= i < cr.len() && cr[i] == '\n';
            assert(line[i] == '\n');
        }
    }
    lemma_char_behind(cr, '\n', seq!['\n'] + rest);
    assert(b.subrange(0, cr.len() as int) =~= cr);
    assert(b.subrange(cr.len() as int + 1, b.len() as int) =~= rest);
    assert(cr.drop_last() =~= line);
    lemma_char_found(line, '\n', 0);
}

/// The digits of a number are read back as the number.
pub proof fn numbers_are_read_back(n: nat)
    ensures
        digits_value(decimal(n)) == Some(n),
        decimal(n).len() > 0,
    decreases n,
{
    let d = n % 10;
    assert(digit_char(d) as nat == 48 + d);
    if n < 10 {
        let s = decimal(n);
        assert(s.drop_last() =~= Seq::<char>::empty());
        assert(s.last() == digit_char(n));
        assert(digits_value(s.drop_last()) == Some(0nat));
    } else {
        numbers_are_read_back(n / 10);
        let s = decimal(n);
        assert(s.drop_last() =~= decimal(n / 10));
        assert(s.last() == digit_char(d));
    }
}

} // verus!
