//! Byte offsets into a source text, and the texts that replacements make.
use vstd::prelude::*;
use vstd::utf8::{
    decode_utf8, encode_utf8, encode_utf8_decode_utf8, encode_utf8_valid_utf8, is_char_boundary,
};

use crate::error::{AftError, Fault};
use crate::text::{decimal, decimal_text, indentation, leading_space};

verus! {

/// The bytes of a text.
pub open spec fn bytes(s: Seq<char>) -> Seq<u8> {
    encode_utf8(s)
}

/// The first index at or after `from` that holds the byte `x`.
pub open spec fn next_byte(b: Seq<u8>, x: u8, from: int) -> Option<int>
    decreases b.len() - from,
{
    if from < 0 || from >= b.len() {
        None
    } else if b[from] == x {
        Some(from)
    } else {
        next_byte(b, x, from + 1)
    }
}

/// The last index below `upto` that holds the byte `x`.
pub open spec fn last_byte(b: Seq<u8>, x: u8, upto: int) -> Option<int>
    decreases upto,
{
    if upto <= 0 || upto > b.len() {
        None
    } else if b[upto - 1] == x {
        Some(upto - 1)
    } else {
        last_byte(b, x, upto - 1)
    }
}

/// The first index at or after `from` that holds the byte `x`.
pub fn find_byte(b: &[u8], x: u8, from: usize) -> (r: Option<usize>)
    ensures
        match r {
            Some(i) => next_byte(b@, x, from as int) == Some(i as int) && from <= i < b.len()
                && b@[i as int] == x,
            None => next_byte(b@, x, from as int) is None,
        },
{
    let mut i: usize = from;
    while i < b.len()
        invariant
            from <= i,
            next_byte(b@, x, from as int) == next_byte(b@, x, i as int),
        decreases b.len() - i,
    {
        if b[i] == x {
            return Some(i);
        }
        i = i + 1;
    }
    None
}

/// The last index below `upto` that holds the byte `x`.
pub fn rfind_byte(b: &[u8], x: u8, upto: usize) -> (r: Option<usize>)
    requires
        upto <= b.len(),
    ensures
        match r {
            Some(i) => last_byte(b@, x, upto as int) == Some(i as int) && i < upto && b@[i as int]
                == x,
            None => last_byte(b@, x, upto as int) is None,
        },
{
    let mut n: usize = upto;
    while n > 0
        invariant
            n <= upto <= b.len(),
            last_byte(b@, x, upto as int) == last_byte(b@, x, n as int),
        decreases n,
    {
        if b[n - 1] == x {
            return Some(n - 1);
        }
        n = n - 1;
    }
    None
}

/// The line feed.
pub const LINE_FEED: u8 = 10;

/// The offset at which the line starts that comes `line` lines after the one that
/// starts at `from`, or the end of the text where there are fewer lines.
pub open spec fn line_offset(b: Seq<u8>, from: int, line: nat) -> int
    decreases line,
{
    if line == 0 {
        from
    } else {
        match next_byte(b, LINE_FEED, from) {
            Some(i) => line_offset(b, i + 1, (line - 1) as nat),
            None => b.len() as int,
        }
    }
}

/// The end of the line that holds the offset `at`: its line feed, or the end of the
/// text.
pub open spec fn line_end(b: Seq<u8>, at: int) -> int {
    match next_byte(b, LINE_FEED, at) {
        Some(i) => i,
        None => b.len() as int,
    }
}

/// The start of the line that holds the offset `at`.
pub open spec fn line_start(b: Seq<u8>, at: int) -> int {
    match last_byte(b, LINE_FEED, at) {
        Some(i) => i + 1,
        None => 0,
    }
}

/// The start of the line that holds an offset.
pub fn find_line_start(b: &[u8], at: usize) -> (r: usize)
    ensures
        r == line_start(b@, at as int),
{
    if at > b.len() {
        return 0;
    }
    match rfind_byte(b, LINE_FEED, at) {
        Some(i) => i + 1,
        None => 0,
    }
}

/// The offset of a line, counted from zero, and a column of bytes; the column is cut
/// off at the end of its line, and a line past the last is the end of the text.
pub open spec fn position(b: Seq<u8>, line: nat, col: nat) -> int {
    let start = line_offset(b, 0, line);
    let end = line_end(b, start);
    if start + col <= end {
        start + col
    } else {
        end
    }
}

proof fn lemma_next_byte(b: Seq<u8>, x: u8, from: int)
    requires
        0 <= from <= b.len(),
    ensures
        match next_byte(b, x, from) {
            Some(i) => from <= i < b.len(),
            None => true,
        },
    decreases b.len() - from,
{
    if from < b.len() && b[from] != x {
        lemma_next_byte(b, x, from + 1);
    }
}

proof fn lemma_line_offset(b: Seq<u8>, from: int, line: nat)
    requires
        0 <= from <= b.len(),
    ensures
        0 <= line_offset(b, from, line) <= b.len(),
    decreases line,
{
    if line > 0 {
        lemma_next_byte(b, LINE_FEED, from);
        match next_byte(b, LINE_FEED, from) {
            Some(i) => {
                lemma_line_offset(b, i + 1, (line - 1) as nat);
            },
            None => {},
        }
    }
}

/// The offset at which a line, counted from zero, starts.
pub fn offset_of_line(source: &str, line: usize) -> (r: usize)
    ensures
        r == line_offset(bytes(source@), 0, line as nat),
        r <= bytes(source@).len(),
{
    let b = source.as_bytes();
    let mut start: usize = 0;
    let mut left: usize = line;
    while left > 0
        invariant
            b@ == bytes(source@),
            start <= b.len(),
            line_offset(b@, 0, line as nat) == line_offset(b@, start as int, left as nat),
        decreases left,
    {
        match find_byte(b, LINE_FEED, start) {
            Some(i) => {
                start = i + 1;
                left = left - 1;
            },
            None => {
                start = b.len();
                left = 0;
            },
        }
    }
    start
}

/// The offset of a line, counted from zero, and a column of bytes.
pub fn line_col_to_byte(source: &str, line: u32, col: u32) -> (r: usize)
    ensures
        r == position(bytes(source@), line as nat, col as nat),
        r <= bytes(source@).len(),
{
    let b = source.as_bytes();
    let start = offset_of_line(source, line as usize);
    let end: usize = match find_byte(b, LINE_FEED, start) {
        Some(i) => i,
        None => b.len(),
    };
    if (col as usize) <= end - start {
        start + col as usize
    } else {
        end
    }
}

/// Whether the bytes `start` to `end` of a text are whole characters of it.
pub open spec fn char_range(s: Seq<char>, start: int, end: int) -> bool {
    0 <= start <= end <= bytes(s).len() && is_char_boundary(bytes(s), start) && is_char_boundary(
        bytes(s),
        end,
    )
}

proof fn lemma_leading_byte(b: Seq<u8>)
    requires
        vstd::utf8::valid_utf8(b),
        b.len() > 0,
    ensures
        !vstd::utf8::is_continuation_byte(b[0]),
{
    vstd::utf8::is_char_boundary_start_end_of_seq(b);
    vstd::utf8::is_char_boundary_iff_not_is_continuation_byte(b, 0);
}

/// A character starts behind a line feed.
proof fn lemma_boundary_behind_line_feed(b: Seq<u8>, i: int)
    requires
        vstd::utf8::valid_utf8(b),
        0 <= i < b.len(),
        b[i] == LINE_FEED,
    ensures
        is_char_boundary(b, i + 1),
{
    vstd::utf8::is_char_boundary_iff_not_is_continuation_byte(b, i);
    vstd::utf8::valid_utf8_split(b, i);
    let tail = b.subrange(i, b.len() as int);
    assert(tail[0] == LINE_FEED);
    let rest = vstd::utf8::pop_first_scalar(tail);
    assert(rest =~= b.subrange(i + 1, b.len() as int));
    if i + 1 < b.len() {
        lemma_leading_byte(rest);
        assert(rest[0] == b[i + 1]);
        vstd::utf8::is_char_boundary_iff_not_is_continuation_byte(b, i + 1);
    } else {
        vstd::utf8::is_char_boundary_start_end_of_seq(b);
    }
}

proof fn lemma_line_offset_is_boundary(b: Seq<u8>, from: int, line: nat)
    requires
        vstd::utf8::valid_utf8(b),
        0 <= from <= b.len(),
        is_char_boundary(b, from),
    ensures
        from <= line_offset(b, from, line) <= b.len(),
        is_char_boundary(b, line_offset(b, from, line)),
    decreases line,
{
    vstd::utf8::is_char_boundary_start_end_of_seq(b);
    if line > 0 {
        lemma_next_byte(b, LINE_FEED, from);
        lemma_next_byte_is(b, LINE_FEED, from);
        match next_byte(b, LINE_FEED, from) {
            Some(i) => {
                lemma_boundary_behind_line_feed(b, i);
                lemma_line_offset_is_boundary(b, i + 1, (line - 1) as nat);
            },
            None => {},
        }
    }
}

proof fn lemma_next_byte_is(b: Seq<u8>, x: u8, from: int)
    requires
        0 <= from <= b.len(),
    ensures
        match next_byte(b, x, from) {
            Some(i) => b[i] == x,
            None => true,
        },
    decreases b.len() - from,
{
    if from < b.len() && b[from] != x {
        lemma_next_byte_is(b, x, from + 1);
    }
}

proof fn lemma_line_offset_adds(b: Seq<u8>, from: int, m: nat, n: nat)
    requires
        0 <= from <= b.len(),
    ensures
        line_offset(b, from, m + n) >= line_offset(b, from, m),
    decreases m,
{
    if m == 0 {
        lemma_line_offset_after(b, from, n);
    } else {
        lemma_next_byte(b, LINE_FEED, from);
        match next_byte(b, LINE_FEED, from) {
            Some(i) => {
                assert((m + n - 1) as nat == (m - 1) as nat + n);
                lemma_line_offset_adds(b, i + 1, (m - 1) as nat, n);
            },
            None => {},
        }
    }
}

proof fn lemma_line_offset_after(b: Seq<u8>, from: int, line: nat)
    requires
        0 <= from <= b.len(),
    ensures
        from <= line_offset(b, from, line) <= b.len(),
    decreases line,
{
    if line > 0 {
        lemma_next_byte(b, LINE_FEED, from);
        match next_byte(b, LINE_FEED, from) {
            Some(i) => {
                lemma_line_offset_after(b, i + 1, (line - 1) as nat);
            },
            None => {},
        }
    }
}

/// The lines from one line up to another are whole characters of a text.
pub proof fn lemma_line_range(s: Seq<char>, first: nat, last: nat)
    requires
        first <= last,
    ensures
        char_range(s, line_offset(bytes(s), 0, first), line_offset(bytes(s), 0, last)),
{
    let b = bytes(s);
    encode_utf8_valid_utf8(s);
    vstd::utf8::is_char_boundary_start_end_of_seq(b);
    lemma_line_offset_is_boundary(b, 0, first);
    lemma_line_offset_is_boundary(b, 0, last);
    lemma_line_offset_adds(b, 0, first, (last - first) as nat);
}

/// The first column of a line is where the line starts.
pub proof fn lemma_first_column(b: Seq<u8>, line: nat)
    ensures
        position(b, line, 0) == line_offset(b, 0, line),
{
    lemma_line_offset(b, 0, line);
    lemma_next_byte(b, LINE_FEED, line_offset(b, 0, line));
}

/// The message about a range that is none.
pub open spec fn bad_range(start: int, end: int) -> Seq<char> {
    "invalid byte range "@ + decimal(start as nat) + ".."@ + decimal(end as nat)
}

/// The bytes of the text in which `text` stands in the place of `start` to `end`.
pub open spec fn spliced(s: Seq<char>, start: int, end: int, text: Seq<char>) -> Seq<u8> {
    bytes(s).subrange(0, start) + bytes(text) + bytes(s).subrange(end, bytes(s).len() as int)
}

proof fn lemma_encode_add(a: Seq<char>, b: Seq<char>)
    ensures
        encode_utf8(a + b) == encode_utf8(a) + encode_utf8(b),
    decreases a.len(),
{
    if a.len() == 0 {
        assert(a + b =~= b);
        assert(encode_utf8(a) + encode_utf8(b) =~= encode_utf8(b));
    } else {
        lemma_encode_add(a.drop_first(), b);
        assert((a + b).drop_first() =~= a.drop_first() + b);
        assert(encode_utf8(a + b) =~= encode_utf8(a) + encode_utf8(b));
    }
}

/// Encoding distributes over concatenation.
pub broadcast proof fn lemma_bytes_add(a: Seq<char>, b: Seq<char>)
    ensures
        #[trigger] bytes(a + b) == bytes(a) + bytes(b),
{
    lemma_encode_add(a, b);
}

/// The source with `text` in the place of its bytes `start` to `end`; an error where
/// these are no whole characters of it.
pub open spec fn replaced(s: Seq<char>, start: int, end: int, text: Seq<char>) -> Result<
    Seq<char>,
    Fault,
> {
    if char_range(s, start, end) {
        Ok(decode_utf8(spliced(s, start, end, text)))
    } else {
        Err(Fault::InvalidRequest { message: bad_range(start, end) })
    }
}

/// A replacement changes the bytes that it stands in the place of, and no others.
pub proof fn lemma_replaced_bytes(s: Seq<char>, start: int, end: int, text: Seq<char>)
    requires
        char_range(s, start, end),
    ensures
        bytes(replaced(s, start, end, text)->Ok_0) == spliced(s, start, end, text),
{
    let b = bytes(s);
    encode_utf8_valid_utf8(s);
    encode_utf8_valid_utf8(text);
    vstd::utf8::valid_utf8_split(b, start);
    vstd::utf8::valid_utf8_split(b, end);
    vstd::utf8::valid_utf8_concat(b.subrange(0, start), bytes(text));
    vstd::utf8::valid_utf8_concat(
        b.subrange(0, start) + bytes(text),
        b.subrange(end, b.len() as int),
    );
    vstd::utf8::decode_utf8_encode_utf8(spliced(s, start, end, text));
}

/// The model of a text or an error.
pub open spec fn text_outcome(r: Result<String, AftError>) -> Result<Seq<char>, Fault> {
    match r {
        Ok(s) => Ok(s@),
        Err(e) => Err(e.deep_view()),
    }
}

/// The source with `text` in the place of its bytes `start` to `end`; an error where
/// these are no whole characters of it.
pub fn replace_byte_range(source: &str, start: usize, end: usize, text: &str) -> (r: Result<
    String,
    AftError,
>)
    ensures
        text_outcome(r) == replaced(source@, start as int, end as int, text@),
        r is Ok ==> bytes(r->Ok_0@) == spliced(source@, start as int, end as int, text@),
{
    broadcast use lemma_bytes_add;

    let len: usize = source.as_bytes().len();
    if start <= end && end <= len && source.is_char_boundary(start) && source.is_char_boundary(
        end,
    ) {
        let (head, _) = source.split_at(start);
        let (_, tail) = source.split_at(end);
        let mut out = head.to_owned();
        out.append(text);
        out.append(tail);
        proof {
            assert(bytes(out@) =~= spliced(source@, start as int, end as int, text@));
            encode_utf8_decode_utf8(out@);
        }
        Ok(out)
    } else {
        let mut message = "invalid byte range ".to_owned();
        message.append(decimal_text(start as u64).as_str());
        message.append("..");
        message.append(decimal_text(end as u64).as_str());
        Err(AftError::InvalidRequest { message })
    }
}

/// The characters of the bytes `start` to `end` of a text.
pub open spec fn text_between(s: Seq<char>, start: int, end: int) -> Seq<char> {
    decode_utf8(bytes(s).subrange(start, end))
}

/// The text between two offsets.
pub fn text_range<'a>(source: &'a str, start: usize, end: usize) -> (r: &'a str)
    requires
        char_range(source@, start as int, end as int),
    ensures
        r@ == text_between(source@, start as int, end as int),
        bytes(r@) == bytes(source@).subrange(start as int, end as int),
{
    let (_, tail) = source.split_at(start);
    proof {
        encode_utf8_valid_utf8(source@);
        lemma_boundary_after(bytes(source@), start as int, end as int);
        encode_utf8_valid_utf8(tail@);
    }
    let (part, _) = tail.split_at(end - start);
    proof {
        assert(bytes(part@) =~= bytes(source@).subrange(start as int, end as int));
        encode_utf8_decode_utf8(part@);
    }
    part
}

/// A boundary of a text is one of the text behind an earlier boundary.
proof fn lemma_boundary_after(b: Seq<u8>, start: int, end: int)
    requires
        vstd::utf8::valid_utf8(b),
        0 <= start <= end <= b.len(),
        is_char_boundary(b, start),
        is_char_boundary(b, end),
    ensures
        is_char_boundary(b.subrange(start, b.len() as int), end - start),
{
    let tail = b.subrange(start, b.len() as int);
    vstd::utf8::valid_utf8_split(b, start);
    vstd::utf8::is_char_boundary_start_end_of_seq(tail);
    if end < b.len() {
        vstd::utf8::is_char_boundary_iff_not_is_continuation_byte(b, end);
        vstd::utf8::is_char_boundary_iff_not_is_continuation_byte(tail, end - start);
        assert(tail[end - start] == b[end]);
    }
}

/// The text between two offsets, nothing where they split a character.
pub open spec fn piece(s: Seq<char>, start: int, end: int) -> Seq<char> {
    if char_range(s, start, end) {
        text_between(s, start, end)
    } else {
        Seq::empty()
    }
}

/// The text between two offsets, nothing where they split a character.
pub fn text_piece<'a>(source: &'a str, start: usize, end: usize) -> (r: &'a str)
    ensures
        r@ == piece(source@, start as int, end as int),
{
    let len: usize = source.as_bytes().len();
    if start <= end && end <= len && source.is_char_boundary(start) && source.is_char_boundary(
        end,
    ) {
        text_range(source, start, end)
    } else {
        proof {
            reveal_strlit("");
            assert(""@ =~= Seq::<char>::empty());
        }
        ""
    }
}

/// The bytes of a text.
pub fn bytes_of(source: &str) -> (r: Vec<u8>)
    ensures
        r@ == bytes(source@),
{
    let b = source.as_bytes();
    let mut out: Vec<u8> = Vec::new();
    let mut i: usize = 0;
    while i < b.len()
        invariant
            i <= b.len(),
            out@ == b@.take(i as int),
        decreases b.len() - i,
    {
        out.push(b[i]);
        assert(out@ =~= b@.take(i + 1));
        i = i + 1;
    }
    assert(b@.take(i as int) =~= b@);
    out
}

/// `String::from_utf8`: the text with these bytes, where they are valid UTF-8.
#[verifier::external_body]
fn utf8_text(b: Vec<u8>) -> (r: Option<String>)
    ensures
        match r {
            Some(s) => vstd::utf8::valid_utf8(b@) && bytes(s@) == b@,
            None => !vstd::utf8::valid_utf8(b@),
        },
{
    String::from_utf8(b).ok()
}

/// The text with these bytes, or another where they are no text.
pub open spec fn text_or(b: Seq<u8>, other: Seq<char>) -> Seq<char> {
    if vstd::utf8::valid_utf8(b) {
        decode_utf8(b)
    } else {
        other
    }
}

/// The text with these bytes, or another where they are no text.
pub fn bytes_as_text(b: Vec<u8>, other: &str) -> (r: String)
    ensures
        r@ == text_or(b@, other@),
{
    let ghost given = b@;
    match utf8_text(b) {
        Some(s) => {
            proof {
                encode_utf8_decode_utf8(s@);
            }
            s
        },
        None => other.to_owned(),
    }
}

/// A line starts at the start of the text or behind a line feed.
pub proof fn lemma_line_start(b: Seq<u8>, at: int)
    ensures
        0 <= line_start(b, at),
        at >= 0 ==> line_start(b, at) <= at,
        line_start(b, at) == 0 || (line_start(b, at) <= b.len() && b[line_start(b, at) - 1]
            == LINE_FEED),
{
    lemma_last_byte(b, LINE_FEED, at);
}

proof fn lemma_last_byte(b: Seq<u8>, x: u8, upto: int)
    ensures
        match last_byte(b, x, upto) {
            Some(i) => 0 <= i < upto && i < b.len() && b[i] == x,
            None => true,
        },
    decreases upto,
{
    if 0 < upto <= b.len() && b[upto - 1] != x {
        lemma_last_byte(b, x, upto - 1);
    }
}

/// The white space that the line with an offset starts with, up to the offset.
pub open spec fn line_indent(s: Seq<char>, at: int) -> Seq<char> {
    leading_space(piece(s, line_start(bytes(s), at), at))
}

/// The white space that the line with an offset starts with, up to the offset.
pub fn indent_at(source: &str, at: usize) -> (r: String)
    ensures
        r@ == line_indent(source@, at as int),
{
    let start = find_line_start(source.as_bytes(), at);
    indentation(text_piece(source, start, at))
}

/// How many of the first `n` bytes are line feeds.
pub open spec fn line_feeds(b: Seq<u8>, n: int) -> nat
    decreases n,
{
    if n <= 0 || n > b.len() {
        0
    } else if b[n - 1] == 10 {
        line_feeds(b, n - 1) + 1
    } else {
        line_feeds(b, n - 1)
    }
}

/// Whether no line feed stands between two offsets.
pub open spec fn on_one_line(b: Seq<u8>, from: int, to: int) -> bool {
    forall|k: int| from <= k < to ==> (#[trigger] b[k]) != 10
}

/// Whether a line, counted from zero, starts at an offset.
pub open spec fn starts_line(b: Seq<u8>, line: nat, at: int) -> bool {
    0 <= at <= b.len() && (at == 0 || b[at - 1] == 10) && line_feeds(b, at) == line
}

proof fn lemma_line_feeds_between(b: Seq<u8>, from: int, to: int)
    requires
        0 <= from <= to <= b.len(),
        on_one_line(b, from, to),
    ensures
        line_feeds(b, to) == line_feeds(b, from),
    decreases to - from,
{
    if from < to {
        assert(b[to - 1] != 10);
        lemma_line_feeds_between(b, from, to - 1);
    }
}

/// The byte that is found is the first one from an offset on, and it is found wherever there is
/// one.
pub proof fn first_byte_is_found(b: Seq<u8>, x: u8, from: int)
    requires
        0 <= from <= b.len(),
    ensures
        match next_byte(b, x, from) {
            Some(i) => from <= i < b.len() && b[i] == x && forall|k: int|
                from <= k < i ==> (#[trigger] b[k]) != x,
            None => forall|k: int| from <= k < b.len() ==> (#[trigger] b[k]) != x,
        },
    decreases b.len() - from,
{
    if from < b.len() && b[from] != x {
        first_byte_is_found(b, x, from + 1);
    }
}

/// The byte that is found backward is the last one before an offset, and it is found wherever
/// there is one.
pub proof fn last_byte_is_found(b: Seq<u8>, x: u8, upto: int)
    requires
        0 <= upto <= b.len(),
    ensures
        match last_byte(b, x, upto) {
            Some(i) => 0 <= i < upto && b[i] == x && forall|k: int|
                i < k < upto ==> (#[trigger] b[k]) != x,
            None => forall|k: int| 0 <= k < upto ==> (#[trigger] b[k]) != x,
        },
    decreases upto,
{
    if upto > 0 && b[upto - 1] != x {
        last_byte_is_found(b, x, upto - 1);
    }
}

proof fn lemma_offset_starts_line(b: Seq<u8>, from: int, line: nat)
    requires
        0 <= from <= b.len(),
        from == 0 || b[from - 1] == 10,
    ensures
        ({
            let at = line_offset(b, from, line);
            &&& from <= at <= b.len()
            &&& at == b.len() || starts_line(b, line_feeds(b, from) + line, at)
            &&& line_feeds(b, from) + line <= line_feeds(b, b.len() as int) ==> starts_line(
                b,
                line_feeds(b, from) + line,
                at,
            )
            &&& line_feeds(b, from) + line > line_feeds(b, b.len() as int) ==> at == b.len()
        }),
    decreases line,
{
    lemma_line_feeds_grow(b, from, b.len() as int);
    if line > 0 {
        first_byte_is_found(b, LINE_FEED, from);
        match next_byte(b, LINE_FEED, from) {
            Some(i) => {
                lemma_line_feeds_between(b, from, i);
                assert(line_feeds(b, i + 1) == line_feeds(b, from) + 1);
                lemma_offset_starts_line(b, i + 1, (line - 1) as nat);
            },
            None => {
                lemma_line_feeds_between(b, from, b.len() as int);
            },
        }
    }
}

proof fn lemma_line_feeds_grow(b: Seq<u8>, from: int, to: int)
    requires
        0 <= from <= to <= b.len(),
    ensures
        line_feeds(b, from) <= line_feeds(b, to),
    decreases to - from,
{
    if from < to {
        lemma_line_feeds_grow(b, from, to - 1);
    }
}

/// A line starts behind as many line feeds as its number says, and a line past the last is the
/// end of the text.
pub proof fn lines_start_behind_line_feeds(b: Seq<u8>, line: nat)
    ensures
        0 <= line_offset(b, 0, line) <= b.len(),
        line <= line_feeds(b, b.len() as int) ==> starts_line(b, line, line_offset(b, 0, line)),
        line > line_feeds(b, b.len() as int) ==> line_offset(b, 0, line) == b.len(),
{
    lemma_offset_starts_line(b, 0, line);
}

/// A position is as many bytes behind the start of its line as its column says, or at the end of
/// the line where the line is shorter.
pub proof fn positions_are_counted_from_their_line(b: Seq<u8>, line: nat, col: nat)
    ensures
        ({
            let start = line_offset(b, 0, line);
            let at = position(b, line, col);
            &&& start <= at <= b.len()
            &&& on_one_line(b, start, at)
            &&& at - start <= col
            &&& at - start < col ==> at == b.len() || b[at] == 10
        }),
{
    lemma_offset_starts_line(b, 0, line);
    first_byte_is_found(b, LINE_FEED, line_offset(b, 0, line));
}

/// The start of the line with an offset is at the start of the text or behind a line feed, with
/// no other between it and the offset.
pub proof fn line_start_is_on_the_line(b: Seq<u8>, at: int)
    requires
        0 <= at <= b.len(),
    ensures
        0 <= line_start(b, at) <= at,
        on_one_line(b, line_start(b, at), at),
        line_start(b, at) == 0 || b[line_start(b, at) - 1] == 10,
{
    last_byte_is_found(b, LINE_FEED, at);
}

/// A replacement is made wherever its range is one of whole characters: the text stands in the
/// place of the range, and everything else stays. Elsewhere it is refused.
pub proof fn replacements_change_their_range(s: Seq<char>, start: int, end: int, text: Seq<char>)
    ensures
        char_range(s, start, end) ==> replaced(s, start, end, text) is Ok && bytes(
            replaced(s, start, end, text)->Ok_0,
        ) == bytes(s).subrange(0, start) + bytes(text) + bytes(s).subrange(
            end,
            bytes(s).len() as int,
        ),
        !char_range(s, start, end) ==> replaced(s, start, end, text) is Err,
{
    if char_range(s, start, end) {
        lemma_replaced_bytes(s, start, end, text);
    }
}

/// A line feed is one byte, and nothing is none.
pub proof fn lemma_line_feed_bytes()
    ensures
        bytes("\n"@) == seq![10u8],
        bytes(""@) == Seq::<u8>::empty(),
{
    reveal_strlit("\n");
    reveal_strlit("");
    assert("\n"@ =~= seq!['\n']);
    assert(vstd::utf8::is_ascii_chars("\n"@));
    vstd::utf8::is_ascii_chars_encode_utf8("\n"@);
    assert(bytes("\n"@) =~= seq![10u8]);
    assert(bytes(""@) =~= Seq::<u8>::empty());
}

} // verus!
