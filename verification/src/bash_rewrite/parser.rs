//! Shell commands that are simple enough to be understood.
use vstd::prelude::*;
use vstd::slice::slice_subrange;

use crate::text::{
    chars_of, chars_start_with, find_char, find_char_from, find_chars, find_from, is_white_space,
    joined, lemma_find_from, same_chars, string_of, texts, trim_chars, trimmed,
    trimmed_end, trimmed_start, white_space,
};

verus! {

/// A command: its words, what it reads, and the file that its output is added to.
#[derive(Debug, Clone, PartialEq, Eq)]
pub struct ParsedCommand {
    pub args: Vec<String>,
    pub heredoc: Option<String>,
    pub appends_to: Option<String>,
}

/// The model of a `ParsedCommand`.
#[verifier::ext_equal]
pub ghost struct Parsed {
    pub args: Seq<Seq<char>>,
    pub heredoc: Option<Seq<char>>,
    pub appends_to: Option<Seq<char>>,
}

impl DeepView for ParsedCommand {
    type V = Parsed;

    open spec fn deep_view(&self) -> Parsed {
        Parsed {
            args: texts(self.args@),
            heredoc: self.heredoc.deep_view(),
            appends_to: self.appends_to.deep_view(),
        }
    }
}

/// Which quotes a character stands in.
#[derive(Clone, Copy, Debug, PartialEq, Eq, Structural)]
pub enum Quote {
    Bare,
    Single,
    Double,
}

/// An ASCII letter.
pub open spec fn ascii_letter(c: char) -> bool {
    ('a' <= c && c <= 'z') || ('A' <= c && c <= 'Z')
}

/// Whether a dollar sign in front of an index stands for something that only a shell knows.
pub open spec fn variable_at(s: Seq<char>, i: int) -> bool {
    0 <= i < s.len() && (s[i] == '(' || s[i] == '{' || s[i] == '_' || ascii_letter(s[i]))
}

fn is_variable_at(s: &[char], i: usize) -> (r: bool)
    ensures
        r == variable_at(s@, i as int),
{
    if i >= s.len() {
        return false;
    }
    let c = s[i];
    c == '(' || c == '{' || c == '_' || ('a' <= c && c <= 'z') || ('A' <= c && c <= 'Z')
}

/// Whether a character stands at an index.
pub open spec fn char_at(s: Seq<char>, i: int, c: char) -> bool {
    0 <= i < s.len() && s[i] == c
}

fn is_char_at(s: &[char], i: usize, c: char) -> (r: bool)
    ensures
        r == char_at(s@, i as int, c),
{
    i < s.len() && s[i] == c
}

/// What the character at an index is to a shell.
pub enum Piece {
    /// A character of a word; the index behind it.
    Letter(char, usize),
    /// A quote that opens or closes; what follows stands in these quotes.
    Turn(Quote),
    Space,
    /// The sign that output is added to a file.
    Append,
    /// Something that only a shell knows.
    Unknown,
}

/// What the character at an index is to a shell.
pub open spec fn piece_at(s: Seq<char>, i: int, q: Quote) -> Piece {
    let c = s[i];
    let escaped = if i + 1 < s.len() {
        Piece::Letter(s[i + 1], (i + 2) as usize)
    } else {
        Piece::Letter('\\', (i + 1) as usize)
    };
    match q {
        Quote::Single => if c == '\'' {
            Piece::Turn(Quote::Bare)
        } else {
            Piece::Letter(c, (i + 1) as usize)
        },
        Quote::Double => if c == '"' {
            Piece::Turn(Quote::Bare)
        } else if c == '`' || (c == '$' && variable_at(s, i + 1)) {
            Piece::Unknown
        } else if c == '\\' {
            escaped
        } else {
            Piece::Letter(c, (i + 1) as usize)
        },
        Quote::Bare => if white_space(c) {
            Piece::Space
        } else if c == '\'' {
            Piece::Turn(Quote::Single)
        } else if c == '"' {
            Piece::Turn(Quote::Double)
        } else if c == '\\' {
            escaped
        } else if c == '`' || (c == '$' && variable_at(s, i + 1)) || c == '|' || c == ';' || (c
            == '&' && char_at(s, i + 1, '&')) || c == '<' {
            Piece::Unknown
        } else if c == '>' {
            if char_at(s, i + 1, '>') {
                Piece::Append
            } else {
                Piece::Unknown
            }
        } else {
            Piece::Letter(c, (i + 1) as usize)
        },
    }
}

fn read_piece(s: &[char], i: usize, q: Quote) -> (r: Piece)
    requires
        i < s.len(),
    ensures
        r == piece_at(s@, i as int, q),
        r matches Piece::Letter(_, next) ==> i < next <= s.len(),
{
    let c = s[i];
    match q {
        Quote::Single => {
            if c == '\'' {
                return Piece::Turn(Quote::Bare);
            }
        },
        Quote::Double => {
            if c == '"' {
                return Piece::Turn(Quote::Bare);
            }
            if c == '`' || (c == '$' && is_variable_at(s, i + 1)) {
                return Piece::Unknown;
            }
            if c == '\\' {
                return if i + 1 < s.len() {
                    Piece::Letter(s[i + 1], i + 2)
                } else {
                    Piece::Letter('\\', i + 1)
                };
            }
        },
        Quote::Bare => {
            if is_white_space(c) {
                return Piece::Space;
            }
            if c == '\'' {
                return Piece::Turn(Quote::Single);
            }
            if c == '"' {
                return Piece::Turn(Quote::Double);
            }
            if c == '\\' {
                return if i + 1 < s.len() {
                    Piece::Letter(s[i + 1], i + 2)
                } else {
                    Piece::Letter('\\', i + 1)
                };
            }
            if c == '`' || (c == '$' && is_variable_at(s, i + 1)) || c == '|' || c == ';' || (c
                == '&' && is_char_at(s, i + 1, '&')) || c == '<' {
                return Piece::Unknown;
            }
            if c == '>' {
                return if is_char_at(s, i + 1, '>') {
                    Piece::Append
                } else {
                    Piece::Unknown
                };
            }
        },
    }
    Piece::Letter(c, i + 1)
}

/// The word that goes on at an index behind `word`, up to white space or the end, and the
/// index behind it; nothing where it holds something that only a shell knows.
pub open spec fn word_from(s: Seq<char>, i: int, q: Quote, word: Seq<char>) -> Option<
    (Seq<char>, int),
>
    decreases s.len() - i,
{
    if i < 0 || i >= s.len() {
        if q == Quote::Bare {
            Some((word, i))
        } else {
            None
        }
    } else {
        match piece_at(s, i, q) {
            Piece::Letter(c, next) => if i < next {
                word_from(s, next as int, q, word.push(c))
            } else {
                None
            },
            Piece::Turn(quote) => word_from(s, i + 1, quote, word),
            Piece::Space => Some((word, i)),
            Piece::Append => None,
            Piece::Unknown => None,
        }
    }
}

fn read_word(s: &[char], start: usize) -> (r: Option<(String, usize)>)
    requires
        start <= s.len(),
    ensures
        match (r, word_from(s@, start as int, Quote::Bare, Seq::empty())) {
            (Some(a), Some(b)) => a.0@ == b.0 && a.1 == b.1 && a.1 <= s.len(),
            (None, None) => true,
            _ => false,
        },
{
    let mut word = String::new();
    let mut q = Quote::Bare;
    let mut i: usize = start;
    assert(word@ =~= Seq::<char>::empty());
    while i < s.len()
        invariant
            i <= s.len(),
            word_from(s@, start as int, Quote::Bare, Seq::empty()) == word_from(
                s@,
                i as int,
                q,
                word@,
            ),
        decreases s.len() - i,
    {
        match read_piece(s, i, q) {
            Piece::Letter(c, next) => {
                word.push(c);
                i = next;
            },
            Piece::Turn(quote) => {
                q = quote;
                i = i + 1;
            },
            Piece::Space => {
                return Some((word, i));
            },
            Piece::Append => {
                return None;
            },
            Piece::Unknown => {
                return None;
            },
        }
    }
    if q == Quote::Bare {
        Some((word, i))
    } else {
        None
    }
}

/// Words with one more behind them, where it is not empty.
pub open spec fn with_word(args: Seq<Seq<char>>, word: Seq<char>) -> Seq<Seq<char>> {
    if word.len() == 0 {
        args
    } else {
        args.push(word)
    }
}

/// The index of the first character from an index on that is no white space.
pub open spec fn past_space(s: Seq<char>, i: int) -> int
    decreases s.len() - i,
{
    if 0 <= i < s.len() && white_space(s[i]) {
        past_space(s, i + 1)
    } else {
        i
    }
}

fn skip_space(s: &[char], start: usize) -> (r: usize)
    requires
        start <= s.len(),
    ensures
        r == past_space(s@, start as int),
        start <= r <= s.len(),
{
    let mut i: usize = start;
    while i < s.len() && is_white_space(s[i])
        invariant
            start <= i <= s.len(),
            past_space(s@, start as int) == past_space(s@, i as int),
        decreases s.len() - i,
    {
        i = i + 1;
    }
    i
}

/// The file that output is added to, named from an index on with nothing behind it.
pub open spec fn append_target(s: Seq<char>, i: int) -> Option<Seq<char>> {
    match word_from(s, past_space(s, i), Quote::Bare, Seq::empty()) {
        Some((word, end)) => if word.len() > 0 && past_space(s, end) >= s.len() {
            Some(word)
        } else {
            None
        },
        None => None,
    }
}

/// The words of a command, and the file that its output is added to.
pub ghost struct Words {
    pub args: Seq<Seq<char>>,
    pub target: Option<Seq<char>>,
}

/// The words of a command from an index on, behind `args` and the start of a word.
pub open spec fn words_from(
    s: Seq<char>,
    i: int,
    q: Quote,
    word: Seq<char>,
    args: Seq<Seq<char>>,
) -> Option<Words>
    decreases s.len() - i,
{
    if i < 0 || i >= s.len() {
        if q == Quote::Bare {
            Some(Words { args: with_word(args, word), target: None })
        } else {
            None
        }
    } else {
        match piece_at(s, i, q) {
            Piece::Letter(c, next) => if i < next {
                words_from(s, next as int, q, word.push(c), args)
            } else {
                None
            },
            Piece::Turn(quote) => words_from(s, i + 1, quote, word, args),
            Piece::Space => words_from(s, i + 1, q, Seq::empty(), with_word(args, word)),
            Piece::Append => match append_target(s, i + 2) {
                Some(t) => Some(Words { args: with_word(args, word), target: Some(t) }),
                None => None,
            },
            Piece::Unknown => None,
        }
    }
}

fn push_word(args: &mut Vec<String>, word: String)
    ensures
        texts(final(args)@) == with_word(texts(old(args)@), word@),
{
    if !word.as_str().is_empty() {
        let ghost before = texts(args@);
        let ghost m = word@;
        args.push(word);
        assert(texts(args@) =~= before.push(m));
    }
}

fn read_target(s: &[char], start: usize) -> (r: Option<String>)
    requires
        start <= s.len(),
    ensures
        r.deep_view() == append_target(s@, start as int),
{
    match read_word(s, skip_space(s, start)) {
        Some((word, end)) => {
            if word.as_str().is_empty() || skip_space(s, end) < s.len() {
                None
            } else {
                Some(word)
            }
        },
        None => None,
    }
}

/// The words of a command, with what it reads. What is read has to be added to a file.
pub open spec fn tokenized(s: Seq<char>, heredoc: Option<Seq<char>>) -> Option<Parsed> {
    match words_from(s, 0, Quote::Bare, Seq::empty(), Seq::empty()) {
        Some(w) => if heredoc is Some && w.target is None {
            None
        } else {
            Some(Parsed { args: w.args, heredoc, appends_to: w.target })
        },
        None => None,
    }
}

fn tokenize(s: &[char], heredoc: Option<String>) -> (r: Option<ParsedCommand>)
    ensures
        r.deep_view() == tokenized(s@, heredoc.deep_view()),
{
    let mut args: Vec<String> = Vec::new();
    let mut word = String::new();
    let mut q = Quote::Bare;
    let mut i: usize = 0;
    assert(texts(args@) =~= Seq::<Seq<char>>::empty());
    assert(word@ =~= Seq::<char>::empty());
    while i < s.len()
        invariant
            i <= s.len(),
            words_from(s@, 0, Quote::Bare, Seq::empty(), Seq::empty()) == words_from(
                s@,
                i as int,
                q,
                word@,
                texts(args@),
            ),
        decreases s.len() - i,
    {
        match read_piece(s, i, q) {
            Piece::Letter(c, next) => {
                word.push(c);
                i = next;
            },
            Piece::Turn(quote) => {
                q = quote;
                i = i + 1;
            },
            Piece::Space => {
                push_word(&mut args, word);
                word = String::new();
                assert(word@ =~= Seq::<char>::empty());
                i = i + 1;
            },
            Piece::Append => {
                push_word(&mut args, word);
                return match read_target(s, i + 2) {
                    Some(t) => Some(ParsedCommand { args, heredoc, appends_to: Some(t) }),
                    None => None,
                };
            },
            Piece::Unknown => {
                return None;
            },
        }
    }
    if q != Quote::Bare {
        return None;
    }
    push_word(&mut args, word);
    if heredoc.is_some() {
        return None;
    }
    Some(ParsedCommand { args, heredoc, appends_to: None })
}

/// The index behind an escape and the character that it is for, where there is one.
pub open spec fn past_escape(s: Seq<char>, i: int) -> int {
    if i + 1 < s.len() {
        i + 2
    } else {
        i + 1
    }
}

/// Where the sign for a text that follows stands, from an index on; an error where something
/// comes before it that only a shell knows, or a quote is left open.
pub open spec fn heredoc_sign(s: Seq<char>, i: int, q: Quote) -> Result<Option<int>, ()>
    decreases s.len() - i,
{
    if i < 0 || i >= s.len() {
        if q == Quote::Bare {
            Ok(None)
        } else {
            Err(())
        }
    } else {
        let c = s[i];
        match q {
            Quote::Single => heredoc_sign(
                s,
                i + 1,
                if c == '\'' {
                    Quote::Bare
                } else {
                    Quote::Single
                },
            ),
            Quote::Double => if c == '"' {
                heredoc_sign(s, i + 1, Quote::Bare)
            } else if c == '`' || (c == '$' && (char_at(s, i + 1, '(') || char_at(s, i + 1, '{'))) {
                Err(())
            } else if c == '\\' {
                heredoc_sign(s, past_escape(s, i), Quote::Double)
            } else {
                heredoc_sign(s, i + 1, Quote::Double)
            },
            Quote::Bare => if c == '\'' {
                heredoc_sign(s, i + 1, Quote::Single)
            } else if c == '"' {
                heredoc_sign(s, i + 1, Quote::Double)
            } else if c == '`' || (c == '$' && variable_at(s, i + 1)) {
                Err(())
            } else if c == '\\' {
                heredoc_sign(s, past_escape(s, i), Quote::Bare)
            } else if c == '<' && char_at(s, i + 1, '<') {
                Ok(Some(i))
            } else {
                heredoc_sign(s, i + 1, Quote::Bare)
            },
        }
    }
}

fn find_heredoc_operator(s: &[char]) -> (r: Result<Option<usize>, ()>)
    ensures
        match (r, heredoc_sign(s@, 0, Quote::Bare)) {
            (Ok(Some(a)), Ok(Some(b))) => a == b && a + 2 <= s.len(),
            (Ok(None), Ok(None)) => true,
            (Err(_), Err(_)) => true,
            _ => false,
        },
{
    let mut q = Quote::Bare;
    let mut i: usize = 0;
    while i < s.len()
        invariant
            i <= s.len(),
            heredoc_sign(s@, 0, Quote::Bare) == heredoc_sign(s@, i as int, q),
        decreases s.len() - i,
    {
        let c = s[i];
        let mut step: usize = 1;
        match q {
            Quote::Single => {
                if c == '\'' {
                    q = Quote::Bare;
                }
            },
            Quote::Double => {
                if c == '"' {
                    q = Quote::Bare;
                } else if c == '`' || (c == '$' && (is_char_at(s, i + 1, '(') || is_char_at(
                    s,
                    i + 1,
                    '{',
                ))) {
                    return Err(());
                } else if c == '\\' {
                    step = if i + 1 < s.len() {
                        2
                    } else {
                        1
                    };
                }
            },
            Quote::Bare => {
                if c == '\'' {
                    q = Quote::Single;
                } else if c == '"' {
                    q = Quote::Double;
                } else if c == '`' || (c == '$' && is_variable_at(s, i + 1)) {
                    return Err(());
                } else if c == '\\' {
                    step = if i + 1 < s.len() {
                        2
                    } else {
                        1
                    };
                } else if c == '<' && is_char_at(s, i + 1, '<') {
                    return Ok(Some(i));
                }
            },
        }
        i = i + step;
    }
    if q == Quote::Bare {
        Ok(None)
    } else {
        Err(())
    }
}

/// The index of the first character from an index on that is no blank.
pub open spec fn past_blanks(s: Seq<char>, i: int) -> int
    decreases s.len() - i,
{
    if 0 <= i < s.len() && (s[i] == ' ' || s[i] == '\t') {
        past_blanks(s, i + 1)
    } else {
        i
    }
}

fn skip_horizontal_space(s: &[char], start: usize) -> (r: usize)
    requires
        start <= s.len(),
    ensures
        r == past_blanks(s@, start as int),
        start <= r <= s.len(),
{
    let mut i: usize = start;
    while i < s.len() && (s[i] == ' ' || s[i] == '\t')
        invariant
            start <= i <= s.len(),
            past_blanks(s@, start as int) == past_blanks(s@, i as int),
        decreases s.len() - i,
    {
        i = i + 1;
    }
    i
}

/// A character that has a meaning to a shell.
pub open spec fn shell_sign(c: char) -> bool {
    c == '\'' || c == '"' || c == '`' || c == '$' || c == '|' || c == ';' || c == '&' || c == '<'
        || c == '>'
}

/// The end of the word of plain characters at an index; nothing where another one is in it.
pub open spec fn plain_end(s: Seq<char>, i: int) -> Option<int>
    decreases s.len() - i,
{
    if i < 0 || i >= s.len() || white_space(s[i]) {
        Some(i)
    } else if shell_sign(s[i]) {
        None
    } else {
        plain_end(s, i + 1)
    }
}

fn read_unquoted_word(s: &[char], start: usize) -> (r: Option<usize>)
    requires
        start <= s.len(),
    ensures
        match (r, plain_end(s@, start as int)) {
            (Some(a), Some(b)) => a == b && start <= a <= s.len(),
            (None, None) => true,
            _ => false,
        },
{
    let mut i: usize = start;
    while i < s.len() && !is_white_space(s[i])
        invariant
            start <= i <= s.len(),
            plain_end(s@, start as int) == plain_end(s@, i as int),
        decreases s.len() - i,
    {
        let c = s[i];
        if c == '\'' || c == '"' || c == '`' || c == '$' || c == '|' || c == ';' || c == '&' || c
            == '<' || c == '>' {
            return None;
        }
        i = i + 1;
    }
    Some(i)
}

/// The text that a body gives up to a delimiter on a line of its own, and what comes behind
/// the delimiter.
pub open spec fn body_parts(body: Seq<char>, delimiter: Seq<char>) -> Option<(Seq<char>, Seq<char>)> {
    if body == delimiter {
        Some((Seq::empty(), Seq::empty()))
    } else if delimiter.push('\n').is_prefix_of(body) {
        Some((Seq::empty(), body.skip(delimiter.len() as int + 1)))
    } else {
        match find_from(body, seq!['\n'] + delimiter, 0) {
            Some(at) => Some((body.take(at + 1), body.skip(at + 1 + delimiter.len()))),
            None => None,
        }
    }
}

/// Whether nothing but white space is left.
pub open spec fn blank(s: Seq<char>) -> bool {
    trimmed(s).len() == 0
}

/// A text without a line feed at its start.
pub open spec fn past_line_feed(s: Seq<char>) -> Seq<char> {
    if s.len() > 0 && s[0] == '\n' {
        s.skip(1)
    } else {
        s
    }
}

/// A command without the text that follows it, and that text.
pub open spec fn heredoc_parts(s: Seq<char>) -> Option<(Seq<char>, Option<Seq<char>>)> {
    match heredoc_sign(s, 0, Quote::Bare) {
        Err(_) => None,
        Ok(None) => Some((s, None)),
        Ok(Some(at)) => {
            let start = past_blanks(s, at + 2);
            match plain_end(s, start) {
                None => None,
                Some(end) => match find_char_from(s, '\n', end) {
                    None => None,
                    Some(line) => if end <= start {
                        None
                    } else {
                        match body_parts(s.skip(line + 1), s.subrange(start, end)) {
                            None => None,
                            Some((content, rest)) => if blank(past_line_feed(rest)) {
                                Some((s.take(at), Some(content)))
                            } else {
                                None
                            },
                        }
                    },
                },
            }
        },
    }
}

fn split_body(body: &[char], delimiter: &[char]) -> (r: Option<(usize, usize)>)
    ensures
        match (r, body_parts(body@, delimiter@)) {
            (Some((a, b)), Some((content, rest))) => a <= body@.len() && b <= body@.len()
                && content == body@.take(a as int) && rest == body@.skip(b as int),
            (None, None) => true,
            _ => false,
        },
{
    if same_chars(body, delimiter) {
        assert(body@.take(0) =~= Seq::<char>::empty());
        assert(body@.skip(body@.len() as int) =~= Seq::<char>::empty());
        return Some((0, body.len()));
    }
    let mut lead: Vec<char> = Vec::new();
    let mut sign: Vec<char> = Vec::new();
    sign.push('\n');
    let mut i: usize = 0;
    while i < delimiter.len()
        invariant
            i <= delimiter.len(),
            lead@ == delimiter@.take(i as int),
            sign@ == seq!['\n'] + delimiter@.take(i as int),
        decreases delimiter.len() - i,
    {
        lead.push(delimiter[i]);
        sign.push(delimiter[i]);
        assert(lead@ =~= delimiter@.take(i + 1));
        assert(sign@ =~= seq!['\n'] + delimiter@.take(i + 1));
        i = i + 1;
    }
    lead.push('\n');
    assert(delimiter@.take(i as int) =~= delimiter@);
    assert(lead@ =~= delimiter@.push('\n'));
    if chars_start_with(body, lead.as_slice()) {
        assert(body@.take(0) =~= Seq::<char>::empty());
        return Some((0, lead.len()));
    }
    match find_chars(body, sign.as_slice(), 0) {
        Some(at) => {
            proof {
                lemma_find_from(body@, sign@, 0);
            }
            Some((at + 1, at + 1 + delimiter.len()))
        },
        None => None,
    }
}

fn split_heredoc<'a>(s: &'a [char]) -> (r: Option<(&'a [char], Option<String>)>)
    ensures
        match (r, heredoc_parts(s@)) {
            (Some(a), Some(b)) => a.0@ == b.0 && a.1.deep_view() == b.1,
            (None, None) => true,
            _ => false,
        },
{
    let at = match find_heredoc_operator(s) {
        Err(_) => {
            return None;
        },
        Ok(None) => {
            return Some((s, None));
        },
        Ok(Some(at)) => at,
    };
    let start = skip_horizontal_space(s, at + 2);
    let end = match read_unquoted_word(s, start) {
        Some(e) => e,
        None => {
            return None;
        },
    };
    let line = match find_char(s, '\n', end) {
        Some(l) => l,
        None => {
            return None;
        },
    };
    if end <= start {
        return None;
    }
    let body = slice_subrange(s, line + 1, s.len());
    assert(body@ =~= s@.skip(line + 1));
    let delimiter = slice_subrange(s, start, end);
    match split_body(body, delimiter) {
        None => None,
        Some((a, b)) => {
            let mut rest = slice_subrange(body, b, body.len());
            assert(rest@ =~= body@.skip(b as int));
            if rest.len() > 0 && rest[0] == '\n' {
                let ghost whole = rest@;
                rest = slice_subrange(rest, 1, rest.len());
                assert(rest@ =~= whole.skip(1));
            }
            if trim_chars(rest).len() > 0 {
                return None;
            }
            let content = string_of(slice_subrange(body, 0, a));
            assert(content@ =~= body@.take(a as int));
            let header = slice_subrange(s, 0, at);
            assert(header@ =~= s@.take(at as int));
            Some((header, Some(content)))
        },
    }
}

/// What a command says, where it is simple enough: nothing is left to a shell, and it has at
/// least one word.
pub open spec fn parsed(command: Seq<char>) -> Option<Parsed> {
    let s = trimmed(command);
    if s.len() == 0 {
        None
    } else {
        match heredoc_parts(s) {
            None => None,
            Some((header, heredoc)) => match tokenized(header, heredoc) {
                None => None,
                Some(p) => if p.args.len() == 0 {
                    None
                } else {
                    Some(p)
                },
            },
        }
    }
}

/// What a command says, where it is simple enough.
pub fn parse(command: &str) -> (r: Option<ParsedCommand>)
    ensures
        r.deep_view() == parsed(command@),
{
    let c = chars_of(command);
    let s = trim_chars(c.as_slice());
    if s.len() == 0 {
        return None;
    }
    match split_heredoc(s) {
        None => None,
        Some((header, heredoc)) => {
            match tokenize(header, heredoc) {
                None => None,
                Some(p) => {
                    assert(texts(p.args@).len() == p.args@.len());
                    if p.args.len() == 0 {
                        None
                    } else {
                        Some(p)
                    }
                },
            }
        },
    }
}

/// A character that means itself to a shell.
pub open spec fn plain_char(c: char) -> bool {
    !white_space(c) && !shell_sign(c) && c != '\\'
}

/// A word of characters that mean themselves.
pub open spec fn plain_word(w: Seq<char>) -> bool {
    w.len() > 0 && forall|i: int| 0 <= i < w.len() ==> plain_char(#[trigger] w[i])
}

/// A text of characters that mean themselves and of spaces.
pub open spec fn plain_text(s: Seq<char>) -> bool {
    forall|i: int| 0 <= i < s.len() ==> plain_char(#[trigger] s[i]) || s[i] == ' '
}

proof fn lemma_no_sign(s: Seq<char>, i: int)
    requires
        plain_text(s),
    ensures
        heredoc_sign(s, i, Quote::Bare) == Ok::<Option<int>, ()>(None),
    decreases s.len() - i,
{
    if 0 <= i < s.len() {
        lemma_no_sign(s, i + 1);
    }
}

proof fn lemma_word_goes_on(
    s: Seq<char>,
    i: int,
    end: int,
    word: Seq<char>,
    args: Seq<Seq<char>>,
)
    requires
        0 <= i <= end <= s.len() <= usize::MAX,
        forall|k: int| i <= k < end ==> plain_char(#[trigger] s[k]),
    ensures
        words_from(s, i, Quote::Bare, word, args) == words_from(
            s,
            end,
            Quote::Bare,
            word + s.subrange(i, end),
            args,
        ),
    decreases end - i,
{
    if i < end {
        assert(plain_char(s[i]));
        lemma_word_goes_on(s, i + 1, end, word.push(s[i]), args);
        assert(word.push(s[i]) + s.subrange(i + 1, end) =~= word + s.subrange(i, end));
    } else {
        assert(word + s.subrange(i, end) =~= word);
    }
}

proof fn lemma_joined_prefix(words: Seq<Seq<char>>, k: int)
    requires
        0 <= k <= words.len(),
    ensures
        joined(words.take(k), " "@).is_prefix_of(joined(words, " "@)),
    decreases words.len(),
{
    if k < words.len() {
        lemma_joined_prefix(words.drop_last(), k);
        assert(words.drop_last().take(k) =~= words.take(k));
        let less = joined(words.drop_last(), " "@);
        let all = joined(words, " "@);
        let part = joined(words.take(k), " "@);
        if words.len() == 1 {
            assert(words.take(0) =~= Seq::<Seq<char>>::empty());
            assert(part =~= all.take(0));
        } else {
            assert(less =~= all.take(less.len() as int));
            assert(part =~= less.take(part.len() as int));
            assert(part =~= all.take(part.len() as int));
        }
    } else {
        assert(words.take(k) =~= words);
        let all = joined(words, " "@);
        assert(all =~= all.take(all.len() as int));
    }
}

proof fn lemma_joined_next(words: Seq<Seq<char>>, k: int)
    requires
        0 <= k < words.len(),
    ensures
        ({
            let s = joined(words, " "@);
            let before = joined(words.take(k), " "@).len() as int;
            let start = if k == 0 {
                0
            } else {
                before + 1
            };
            let end = start + words[k].len();
            &&& end == joined(words.take(k + 1), " "@).len()
            &&& end <= s.len()
            &&& s.subrange(start, end) == words[k]
            &&& k > 0 ==> s[before] == ' '
        }),
{
    reveal_strlit(" ");
    let s = joined(words, " "@);
    let some = joined(words.take(k), " "@);
    let more = joined(words.take(k + 1), " "@);
    assert(words.take(k + 1).drop_last() =~= words.take(k));
    assert(words.take(k + 1).last() == words[k]);
    lemma_joined_prefix(words, k + 1);
    assert(more =~= s.take(more.len() as int));
    if k == 0 {
        assert(words.take(0) =~= Seq::<Seq<char>>::empty());
        assert(words.take(1)[0] == words[0]);
        assert(more == words[0]);
        assert(s.subrange(0, words[0].len() as int) =~= words[0]);
    } else {
        assert(more == some + " "@ + words[k]);
        let start = some.len() as int + 1;
        let end = start + words[k].len();
        assert(s.subrange(start, end) =~= words[k]) by {
            assert forall|i: int| 0 <= i < words[k].len() implies s.subrange(start, end)[i]
                == words[k][i] by {
                assert(s[start + i] == more[start + i]);
            }
        }
        assert(s[some.len() as int] == more[some.len() as int]);
    }
}

proof fn lemma_joined_plain(words: Seq<Seq<char>>)
    requires
        forall|i: int| 0 <= i < words.len() ==> plain_word(#[trigger] words[i]),
    ensures
        plain_text(joined(words, " "@)),
        words.len() > 0 ==> {
            let s = joined(words, " "@);
            s.len() > 0 && plain_char(s[0]) && plain_char(s.last())
        },
    decreases words.len(),
{
    reveal_strlit(" ");
    if words.len() > 1 {
        let front = words.drop_last();
        assert forall|i: int| 0 <= i < front.len() implies plain_word(#[trigger] front[i]) by {
            assert(plain_word(words[i]));
        }
        lemma_joined_plain(front);
        let less = joined(front, " "@);
        let w = words.last();
        assert(plain_word(words[words.len() - 1]));
        let s = joined(words, " "@);
        assert(s == less + " "@ + w);
        assert forall|i: int| 0 <= i < s.len() implies plain_char(#[trigger] s[i]) || s[i]
            == ' ' by {
            if i < less.len() {
                assert(s[i] == less[i]);
            } else if i > less.len() {
                assert(s[i] == w[i - less.len() - 1]);
            }
        }
        assert(s[0] == less[0]);
        assert(s.last() == w.last());
    } else if words.len() == 1 {
        assert(plain_word(words[0]));
    }
}

proof fn lemma_words_upto(words: Seq<Seq<char>>, k: int)
    requires
        0 <= k <= words.len(),
        forall|i: int| 0 <= i < words.len() ==> plain_word(#[trigger] words[i]),
        joined(words, " "@).len() <= usize::MAX,
    ensures
        ({
            let s = joined(words, " "@);
            words_from(s, 0, Quote::Bare, Seq::empty(), Seq::empty()) == words_from(
                s,
                joined(words.take(k), " "@).len() as int,
                Quote::Bare,
                if k == 0 {
                    Seq::empty()
                } else {
                    words[k - 1]
                },
                if k == 0 {
                    Seq::empty()
                } else {
                    words.take(k - 1)
                },
            )
        }),
    decreases k,
{
    let s = joined(words, " "@);
    if k == 0 {
        assert(words.take(0) =~= Seq::<Seq<char>>::empty());
    } else {
        lemma_words_upto(words, k - 1);
        lemma_joined_next(words, k - 1);
        let before = joined(words.take(k - 1), " "@).len() as int;
        let w = words[k - 1];
        let start = if k == 1 {
            0
        } else {
            before + 1
        };
        let end = start + w.len();
        let args = words.take(k - 1);
        assert(plain_word(w));
        assert forall|i: int| start <= i < end implies plain_char(#[trigger] s[i]) by {
            assert(s.subrange(start, end)[i - start] == w[i - start]);
        }
        if k == 1 {
            assert(words.take(0) =~= Seq::<Seq<char>>::empty());
            lemma_word_goes_on(s, start, end, Seq::empty(), Seq::empty());
            assert(Seq::<char>::empty() + s.subrange(start, end) =~= w);
        } else {
            assert(plain_word(words[k - 2]));
            assert(white_space(' '));
            assert(words.take(k - 2).push(words[k - 2]) =~= args);
            assert(words_from(
                s,
                before,
                Quote::Bare,
                words[k - 2],
                words.take(k - 2),
            ) == words_from(s, before + 1, Quote::Bare, Seq::empty(), args));
            lemma_word_goes_on(s, start, end, Seq::empty(), args);
            assert(Seq::<char>::empty() + s.subrange(start, end) =~= w);
        }
    }
}

/// Words of characters that mean themselves, with spaces between them, are read back.
pub proof fn plain_words_are_read_back(words: Seq<Seq<char>>)
    requires
        words.len() > 0,
        forall|i: int| 0 <= i < words.len() ==> plain_word(#[trigger] words[i]),
        joined(words, " "@).len() <= usize::MAX,
    ensures
        parsed(joined(words, " "@)) == Some(
            Parsed { args: words, heredoc: None, appends_to: None },
        ),
{
    let s = joined(words, " "@);
    let n = words.len() as int;
    lemma_joined_plain(words);
    assert(trimmed_start(s) == s);
    assert(trimmed_end(s) == s);
    lemma_no_sign(s, 0);
    lemma_words_upto(words, n);
    assert(words.take(n) =~= words);
    assert(plain_word(words[n - 1]));
    assert(words.take(n - 1).push(words[n - 1]) =~= words);
}

/// What stands between single quotes is part of the word as it is.
pub proof fn single_quotes_keep_everything(
    s: Seq<char>,
    i: int,
    j: int,
    word: Seq<char>,
    args: Seq<Seq<char>>,
)
    requires
        0 <= i < j < s.len() <= usize::MAX,
        s[i] == '\'',
        s[j] == '\'',
        forall|k: int| i < k < j ==> (#[trigger] s[k]) != '\'',
    ensures
        words_from(s, i, Quote::Bare, word, args) == words_from(
            s,
            j + 1,
            Quote::Bare,
            word + s.subrange(i + 1, j),
            args,
        ),
{
    lemma_single_run(s, i + 1, j, word, args);
}

proof fn lemma_single_run(s: Seq<char>, i: int, j: int, word: Seq<char>, args: Seq<Seq<char>>)
    requires
        0 <= i <= j < s.len() <= usize::MAX,
        s[j] == '\'',
        forall|k: int| i <= k < j ==> (#[trigger] s[k]) != '\'',
    ensures
        words_from(s, i, Quote::Single, word, args) == words_from(
            s,
            j + 1,
            Quote::Bare,
            word + s.subrange(i, j),
            args,
        ),
    decreases j - i,
{
    if i == j {
        assert(word + s.subrange(i, j) =~= word);
    } else {
        assert(s[i] != '\'');
        lemma_single_run(s, i + 1, j, word.push(s[i]), args);
        assert(word.push(s[i]) + s.subrange(i + 1, j) =~= word + s.subrange(i, j));
    }
}

/// What stands between double quotes is part of the word, as far as it holds nothing that a shell
/// would put something else in the place of.
pub proof fn double_quotes_keep_plain_text(
    s: Seq<char>,
    i: int,
    j: int,
    word: Seq<char>,
    args: Seq<Seq<char>>,
)
    requires
        0 <= i < j < s.len() <= usize::MAX,
        s[i] == '"',
        s[j] == '"',
        forall|k: int|
            i < k < j ==> (#[trigger] s[k]) != '"' && s[k] != '`' && s[k] != '$' && s[k] != '\\',
    ensures
        words_from(s, i, Quote::Bare, word, args) == words_from(
            s,
            j + 1,
            Quote::Bare,
            word + s.subrange(i + 1, j),
            args,
        ),
{
    lemma_double_run(s, i + 1, j, word, args);
}

proof fn lemma_double_run(s: Seq<char>, i: int, j: int, word: Seq<char>, args: Seq<Seq<char>>)
    requires
        0 <= i <= j < s.len() <= usize::MAX,
        s[j] == '"',
        forall|k: int|
            i <= k < j ==> (#[trigger] s[k]) != '"' && s[k] != '`' && s[k] != '$' && s[k] != '\\',
    ensures
        words_from(s, i, Quote::Double, word, args) == words_from(
            s,
            j + 1,
            Quote::Bare,
            word + s.subrange(i, j),
            args,
        ),
    decreases j - i,
{
    if i == j {
        assert(word + s.subrange(i, j) =~= word);
    } else {
        assert(s[i] != '"');
        lemma_double_run(s, i + 1, j, word.push(s[i]), args);
        assert(word.push(s[i]) + s.subrange(i + 1, j) =~= word + s.subrange(i, j));
    }
}

/// Outside quotes white space ends a word, and a backslash takes the character behind it as it is.
/// A command with a pipe, a list, an input, an output that is not added to a file, a substitution or
/// a variable is left to the shell.
pub proof fn signs_of_the_shell_are_left_to_it(
    s: Seq<char>,
    i: int,
    word: Seq<char>,
    args: Seq<Seq<char>>,
)
    requires
        0 <= i < s.len() <= usize::MAX,
    ensures
        ({
            let r = words_from(s, i, Quote::Bare, word, args);
            let c = s[i];
            let next = if i + 1 < s.len() {
                s[i + 1]
            } else {
                '\n'
            };
            &&& white_space(c) && word.len() > 0 ==> r == words_from(
                s,
                i + 1,
                Quote::Bare,
                Seq::empty(),
                args.push(word),
            )
            &&& white_space(c) && word.len() == 0 ==> r == words_from(
                s,
                i + 1,
                Quote::Bare,
                Seq::empty(),
                args,
            )
            &&& c == '\\' && i + 1 < s.len() ==> r == words_from(
                s,
                i + 2,
                Quote::Bare,
                word.push(next),
                args,
            )
            &&& c == '|' || c == ';' || c == '<' || c == '`' ==> r is None
            &&& c == '&' && next == '&' ==> r is None
            &&& c == '>' && next != '>' ==> r is None
            &&& c == '$' && (next == '(' || next == '{' || next == '_' || 'a' <= next <= 'z' || 'A'
                <= next <= 'Z') ==> r is None
        }),
{
}

/// A command that adds its output to a file names the file behind the sign, as its last word; a word
/// behind it, or none, leaves it to the shell.
pub proof fn outputs_are_added_to_the_file_named_last(
    s: Seq<char>,
    i: int,
    word: Seq<char>,
    args: Seq<Seq<char>>,
)
    requires
        0 <= i,
        i + 1 < s.len() <= usize::MAX,
        s[i] == '>',
        s[i + 1] == '>',
    ensures
        match words_from(s, i, Quote::Bare, word, args) {
            Some(w) => w.target is Some && (w.target->0).len() > 0 && (word.len() > 0 ==> w.args
                == args.push(word)) && (word.len() == 0 ==> w.args == args) && exists|end: int|
                #![trigger past_space(s, end)]
                word_from(s, past_space(s, i + 2), Quote::Bare, Seq::empty()) == Some(
                    (w.target->0, end),
                ) && past_space(s, end) >= s.len(),
            None => true,
        },
{
    match word_from(s, past_space(s, i + 2), Quote::Bare, Seq::empty()) {
        Some((w, end)) => {
            assert(past_space(s, end) == past_space(s, end));
        },
        None => {},
    }
}

/// A text that a command reads ends before the first line that starts with its delimiter; nothing
/// but the delimiter's line is dropped.
pub proof fn texts_end_at_their_delimiter(
    content: Seq<char>,
    delimiter: Seq<char>,
    rest: Seq<char>,
)
    requires
        delimiter.len() > 0,
        content.len() > 0,
        content.last() == '\n',
        !delimiter.push('\n').is_prefix_of(content + delimiter + rest),
        forall|k: int|
            0 <= k < content.len() - 1 ==> #[trigger] (content + delimiter + rest).subrange(
                k,
                k + 1 + delimiter.len(),
            ) != seq!['\n'] + delimiter,
    ensures
        body_parts(content + delimiter + rest, delimiter) == Some((content, rest)),
{
    let body = content + delimiter + rest;
    let needle = seq!['\n'] + delimiter;
    let at = content.len() - 1;
    assert(body.len() > delimiter.len());
    assert(body.subrange(at, at + needle.len()) =~= needle);
    lemma_find_from(body, needle, 0);
    match find_from(body, needle, 0) {
        Some(i) => {
            if i < at {
                assert(body.subrange(i, i + 1 + delimiter.len()) == needle);
            }
            if at < i {
                assert(body.subrange(at, at + needle.len()) != needle);
            }
        },
        None => {
            assert(body.subrange(at, at + needle.len()) != needle);
        },
    }
    assert(body.take(at + 1) =~= content);
    assert(body.skip(at + 1 + delimiter.len()) =~= rest);
}

} // verus!
