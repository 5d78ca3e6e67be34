//! Searches for the lines that a regular expression matches.
use vstd::prelude::*;

use crate::commands::ast_scope::{excludes, is_exclusion};
use crate::commands::ast_search::{list_of, listed, Source, SourceFile};
use crate::commands::refusal::{
    given_text, invalid, need, needed, refuse, refused, reject, verdict, Refusal, RefusalModel,
};
use crate::counts::capped;
use crate::edit::{
    bytes, first_byte_is_found, line_end, line_feeds, line_start, line_start_is_on_the_line,
    on_one_line, piece, text_piece, LINE_FEED,
};
use crate::groups::{indices_under, ints, keys_of, ordered_keys, under};
use crate::json::{texts_among, Json};
use crate::models::{group_models, models};
use crate::order::{add_distinct, distinct};
use crate::paths::{
    components, path_components, path_relative, path_under, relative_to, render, rendered,
    starts_with_path,
};
use crate::syntax::{line_number, line_of};
use crate::text::{
    chars_of, decimal, decimal_text, join, joined, lines, lines_of, owned, same, string_of,
    strip_trailing, text2, text3, text4, text5, texts, without_trailing,
};

verus! {

/// How many matches are given where a request does not say.
pub const DEFAULT_MAX_RESULTS: usize = 100;

/// How many characters of a line are shown.
pub const MAX_LINE_CHARS: usize = 200;

/// How many matches of a file are shown before they are cut.
pub const MAX_MATCHES_PER_FILE: usize = 10;

/// How many matches of a file are shown where they are cut.
pub const MAX_DISPLAY_MATCHES_PER_FILE: usize = 5;

/// How large a regular expression can become, in bytes.
pub const REGEX_SIZE_LIMIT: usize = 10485760;

/// How far the search index has come.
#[derive(Clone, Copy, Debug, PartialEq, Eq, Structural)]
pub enum IndexStatus {
    Ready,
    Building,
    Fallback,
}

impl IndexStatus {
    /// The name of the status.
    pub open spec fn label(self) -> Seq<char> {
        match self {
            IndexStatus::Ready => "ready"@,
            IndexStatus::Building => "building"@,
            IndexStatus::Fallback => "fallback"@,
        }
    }
}

/// The name of a status.
pub fn index_status_label(status: IndexStatus) -> (r: &'static str)
    ensures
        r@ == status.label(),
{
    match status {
        IndexStatus::Ready => "ready",
        IndexStatus::Building => "building",
        IndexStatus::Fallback => "fallback",
    }
}

/// How far the index has come: `index` says whether there is one and whether it is ready, and
/// `awaited` whether one is being made.
pub fn current_index_status(index: Option<bool>, awaited: bool) -> (r: IndexStatus)
    ensures
        r == (if index == Some(true) {
            IndexStatus::Ready
        } else if awaited || index is Some {
            IndexStatus::Building
        } else {
            IndexStatus::Fallback
        }),
{
    match index {
        Some(true) => IndexStatus::Ready,
        Some(false) => IndexStatus::Building,
        None => if awaited {
            IndexStatus::Building
        } else {
            IndexStatus::Fallback
        },
    }
}

/// A match of a regular expression: the line and column of its start, counted from one, the
/// text of the line, and the text of the match.
pub struct GrepMatch {
    pub file: String,
    pub line: u32,
    pub column: u32,
    pub line_text: String,
    pub match_text: String,
}

/// The model of a `GrepMatch`.
pub ghost struct LineHit {
    pub file: Seq<char>,
    pub line: int,
    pub column: int,
    pub line_text: Seq<char>,
    pub match_text: Seq<char>,
}

impl DeepView for GrepMatch {
    type V = LineHit;

    open spec fn deep_view(&self) -> LineHit {
        LineHit {
            file: self.file@,
            line: self.line as int,
            column: self.column as int,
            line_text: self.line_text@,
            match_text: self.match_text@,
        }
    }
}

/// What a search found.
pub struct GrepResult {
    pub matches: Vec<GrepMatch>,
    pub total_matches: usize,
    pub files_searched: usize,
    pub files_with_matches: usize,
    pub index_status: IndexStatus,
    pub truncated: bool,
}

/// The model of a `GrepResult`.
pub ghost struct Grepped {
    pub matches: Seq<LineHit>,
    pub total_matches: int,
    pub files_searched: int,
    pub files_with_matches: int,
    pub index_status: IndexStatus,
    pub truncated: bool,
}

impl DeepView for GrepResult {
    type V = Grepped;

    open spec fn deep_view(&self) -> Grepped {
        Grepped {
            matches: models(self.matches@),
            total_matches: self.total_matches as int,
            files_searched: self.files_searched as int,
            files_with_matches: self.files_with_matches as int,
            index_status: self.index_status,
            truncated: self.truncated,
        }
    }
}

/// The offsets at which the lines start that start among the first `n` bytes or right behind
/// them.
pub open spec fn starts_upto(b: Seq<u8>, n: int) -> Seq<int>
    decreases n,
{
    if n <= 0 || n > b.len() {
        seq![0]
    } else if b[n - 1] == LINE_FEED {
        starts_upto(b, n - 1).push(n)
    } else {
        starts_upto(b, n - 1)
    }
}

/// The offsets at which the lines of a text start.
pub fn line_starts(content: &str) -> (r: Vec<usize>)
    ensures
        ints(r@) == starts_upto(bytes(content@), bytes(content@).len() as int),
{
    let b = content.as_bytes();
    let mut starts: Vec<usize> = Vec::new();
    starts.push(0);
    let mut i: usize = 0;
    assert(ints(starts@) =~= seq![0int]);
    while i < b.len()
        invariant
            i <= b.len(),
            b@ == bytes(content@),
            ints(starts@) == starts_upto(b@, i as int),
        decreases b.len() - i,
    {
        if b[i] == LINE_FEED {
            let ghost before = ints(starts@);
            starts.push(i + 1);
            assert(ints(starts@) =~= before.push(i + 1));
        }
        i = i + 1;
    }
    starts
}

proof fn lemma_starts(b: Seq<u8>, n: int, m: int)
    requires
        0 <= n <= m <= b.len(),
    ensures
        ({
            let s = starts_upto(b, n);
            let t = starts_upto(b, m);
            &&& s.len() >= 1
            &&& s.is_prefix_of(t)
            &&& forall|i: int| 0 <= i < s.len() ==> 0 <= #[trigger] s[i] <= n
            &&& forall|i: int| s.len() <= i < t.len() ==> #[trigger] t[i] > n
            &&& forall|i: int, j: int|
                0 <= i < j < t.len() ==> (#[trigger] t[i]) < (#[trigger] t[j])
            &&& s.last() == line_start(b, n)
        }),
    decreases m,
{
    let s = starts_upto(b, n);
    let t = starts_upto(b, m);
    if n < m {
        lemma_starts(b, n, m - 1);
        lemma_starts(b, m - 1, m - 1);
        let u = starts_upto(b, m - 1);
        assert(s =~= t.take(s.len() as int)) by {
            assert(s =~= u.take(s.len() as int));
        }
        assert forall|i: int| s.len() <= i < t.len() implies #[trigger] t[i] > n by {
            if i < u.len() {
                assert(t[i] == u[i]);
            }
        }
        assert forall|i: int, j: int| 0 <= i < j < t.len() implies (#[trigger] t[i]) < (
        #[trigger] t[j]) by {
            assert(t[i] == u[i]);
            if j < u.len() {
                assert(t[j] == u[j]);
            }
        }
    } else if n > 0 {
        lemma_starts(b, n - 1, n - 1);
        let u = starts_upto(b, n - 1);
        assert(s =~= t.take(s.len() as int));
        assert forall|i: int| 0 <= i < s.len() implies 0 <= #[trigger] s[i] <= n by {
            if i < u.len() {
                assert(s[i] == u[i]);
            }
        }
        assert forall|i: int, j: int| 0 <= i < j < t.len() implies (#[trigger] t[i]) < (
        #[trigger] t[j]) by {
            assert(t[i] == u[i]);
            if j < u.len() {
                assert(t[j] == u[j]);
            }
        }
    } else {
        assert(s =~= t.take(s.len() as int));
    }
}

/// Where a match starts: the line and the column, counted from one, and the line's text
/// without its end.
pub ghost struct LineSpot {
    pub line: int,
    pub column: int,
    pub text: Seq<char>,
}

/// The line and column of an offset.
pub open spec fn line_spot(content: Seq<char>, offset: int) -> LineSpot {
    let b = bytes(content);
    let start = line_start(b, offset);
    LineSpot {
        line: line_number(((starts_upto(b, offset).len() - 1) as usize as u32) as int),
        column: line_number((piece(content, start, offset).len() as usize as u32) as int),
        text: without_trailing(piece(content, start, line_end(b, start)), '\r'),
    }
}

fn find_line(starts: &Vec<usize>, offset: usize) -> (r: usize)
    requires
        starts@.len() >= 1,
        starts@[0] == 0,
        forall|i: int, j: int|
            0 <= i < j < starts@.len() ==> (#[trigger] starts@[i]) < (#[trigger] starts@[j]),
    ensures
        r < starts@.len(),
        starts@[r as int] <= offset,
        r + 1 < starts@.len() ==> starts@[r + 1] > offset,
{
    let mut lo: usize = 0;
    let mut hi: usize = starts.len();
    while hi - lo > 1
        invariant
            lo < hi <= starts@.len(),
            starts@[lo as int] <= offset,
            hi < starts@.len() ==> starts@[hi as int] > offset,
        decreases hi - lo,
    {
        let mid: usize = lo + (hi - lo) / 2;
        if starts[mid] <= offset {
            lo = mid;
        } else {
            hi = mid;
        }
    }
    lo
}

/// The line and column of an offset, and the text of the line. `starts` are the offsets at
/// which the lines start.
pub fn line_details(content: &str, starts: &Vec<usize>, offset: usize) -> (r: (u32, u32, String))
    requires
        offset <= bytes(content@).len(),
        ints(starts@) == starts_upto(bytes(content@), bytes(content@).len() as int),
    ensures
        ({
            let want = line_spot(content@, offset as int);
            r.0 == want.line && r.1 == want.column && r.2@ == want.text
        }),
{
    let ghost b = bytes(content@);
    let ghost all = ints(starts@);
    let ghost upto = starts_upto(b, offset as int);
    proof {
        lemma_starts(b, offset as int, b.len() as int);
        lemma_starts(b, 0, b.len() as int);
        assert(all.len() == starts@.len());
        assert forall|i: int, j: int| 0 <= i < j < starts@.len() implies (#[trigger] starts@[i])
            < (#[trigger] starts@[j]) by {
            assert(all[i] < all[j]);
        }
        assert(all[0] == starts@[0]);
        assert(starts_upto(b, 0)[0] == all.take(1)[0]);
    }
    let index = find_line(starts, offset);
    proof {
        assert(all[index as int] == starts@[index as int]);
        if index + 1 < upto.len() {
            assert(upto[index + 1] == all[index + 1]);
            assert(all[index + 1] == starts@[index + 1]);
        }
        if index >= upto.len() {
            assert(all[index as int] > offset);
        }
        assert(upto.len() == index + 1);
        assert(upto.last() == all[index as int]);
    }
    let start = starts[index];
    let end = find_line_end(content, start);
    let line = chars_of(text_piece(content, start, end));
    let column = chars_of(text_piece(content, start, offset)).len();
    (
        line_of(#[verifier::truncate] (index as u32)),
        line_of(#[verifier::truncate] (column as u32)),
        string_of(strip_trailing(line.as_slice(), '\r')),
    )
}

fn find_line_end(content: &str, start: usize) -> (r: usize)
    ensures
        r == line_end(bytes(content@), start as int),
{
    let b = content.as_bytes();
    match crate::edit::find_byte(b, LINE_FEED, start) {
        Some(i) => i,
        None => b.len(),
    }
}

/// A part of a text that a regular expression matches.
pub struct Span {
    pub start: usize,
    pub text: String,
}

/// The model of a `Span`.
pub ghost struct Part {
    pub start: int,
    pub text: Seq<char>,
}

impl DeepView for Span {
    type V = Part;

    open spec fn deep_view(&self) -> Part {
        Part { start: self.start as int, text: self.text@ }
    }
}

/// Why a text is no regular expression where `usize` has a number of bits, where it is none.
pub uninterp spec fn regex_fault(
    pattern: Seq<char>,
    ignore_case: bool,
    size_limit: int,
    multi_line: bool,
    usize_bits: int,
) -> Option<Seq<char>>;

/// Calls `regex::RegexBuilder::build`. Whether it fails, and with which message, is a function
/// of the pattern, the options and the width of `usize` alone, named `regex_fault`: the size
/// limit counts memory, so an expression close to it may fit with one width and not with another.
#[verifier::external_body]
fn check_regex(pattern: &str, ignore_case: bool, size_limit: usize, multi_line: bool) -> (r: Option<
    String,
>)
    ensures
        r.deep_view() == regex_fault(
            pattern@,
            ignore_case,
            size_limit as int,
            multi_line,
            usize::BITS as int,
        ),
{
    let mut builder = regex::RegexBuilder::new(pattern);
    builder.case_insensitive(ignore_case).size_limit(size_limit).multi_line(multi_line);
    builder.build().err().map(|e| e.to_string())
}

/// The parts of a text that a regular expression matches, in order.
pub uninterp spec fn regex_parts(
    content: Seq<char>,
    pattern: Seq<char>,
    ignore_case: bool,
    size_limit: int,
    multi_line: bool,
    usize_bits: int,
) -> Seq<Part>;

/// Calls `regex::Regex::find_iter`; nothing comes of a text that is no regular expression. The
/// parts are a function of the text, the pattern, the options and the width of `usize` alone,
/// named `regex_parts`, and start inside the text.
#[verifier::external_body]
fn find_parts(
    content: &str,
    pattern: &str,
    ignore_case: bool,
    size_limit: usize,
    multi_line: bool,
) -> (r: Vec<Span>)
    ensures
        models(r@) == regex_parts(
            content@,
            pattern@,
            ignore_case,
            size_limit as int,
            multi_line,
            usize::BITS as int,
        ),
        forall|i: int| 0 <= i < r@.len() ==> (#[trigger] r@[i]).start <= bytes(content@).len(),
{
    let mut builder = regex::RegexBuilder::new(pattern);
    builder.case_insensitive(ignore_case).size_limit(size_limit).multi_line(multi_line);
    let found = |r: regex::Regex| {
        r.find_iter(content).map(|m| Span { start: m.start(), text: m.as_str().into() }).collect()
    };
    builder.build().map(found).unwrap_or_default()
}

/// The match that starts a part of a text.
pub open spec fn hit_of(file: Seq<char>, content: Seq<char>, part: Part) -> LineHit {
    let spot = line_spot(content, part.start);
    LineHit {
        file,
        line: spot.line,
        column: spot.column,
        line_text: spot.text,
        match_text: part.text,
    }
}

/// Whether a match on a line is among some.
pub open spec fn has_line(hits: Seq<LineHit>, line: int) -> bool {
    exists|i: int| 0 <= i < hits.len() && (#[trigger] hits[i]).line == line
}

/// The first match on every line, of the first `n` parts.
pub open spec fn first_hits(file: Seq<char>, content: Seq<char>, parts: Seq<Part>, n: int) -> Seq<
    LineHit,
>
    decreases n,
{
    if n <= 0 || n > parts.len() {
        Seq::empty()
    } else {
        let before = first_hits(file, content, parts, n - 1);
        let hit = hit_of(file, content, parts[n - 1]);
        if has_line(before, hit.line) {
            before
        } else {
            before.push(hit)
        }
    }
}

fn is_seen(hits: &Vec<GrepMatch>, line: u32) -> (r: bool)
    ensures
        r == has_line(models(hits@), line as int),
{
    let ghost all = models(hits@);
    let mut i: usize = 0;
    while i < hits.len()
        invariant
            i <= hits.len(),
            all == models(hits@),
            forall|k: int| 0 <= k < i ==> (#[trigger] all[k]).line != line,
        decreases hits.len() - i,
    {
        assert(all[i as int] == hits@[i as int].deep_view());
        if hits[i].line == line {
            return true;
        }
        i = i + 1;
    }
    false
}

/// The first match on every line of a file. `parts` are the parts of its text that match.
pub fn matches_on_lines(file: &str, content: &str, parts: &Vec<Span>) -> (r: Vec<GrepMatch>)
    requires
        forall|i: int|
            0 <= i < parts@.len() ==> (#[trigger] parts@[i]).start <= bytes(content@).len(),
    ensures
        models(r@) == first_hits(file@, content@, models(parts@), parts@.len() as int),
{
    broadcast use group_models;

    let starts = line_starts(content);
    let ghost all = models(parts@);
    let mut out: Vec<GrepMatch> = Vec::new();
    let mut i: usize = 0;
    while i < parts.len()
        invariant
            i <= parts.len(),
            all == models(parts@),
            ints(starts@) == starts_upto(bytes(content@), bytes(content@).len() as int),
            forall|k: int|
                0 <= k < parts@.len() ==> (#[trigger] parts@[k]).start <= bytes(content@).len(),
            models(out@) == first_hits(file@, content@, all, i as int),
        decreases parts.len() - i,
    {
        assert(all[i as int] == parts@[i as int].deep_view());
        let (line, column, line_text) = line_details(content, &starts, parts[i].start);
        if !is_seen(&out, line) {
            let m = GrepMatch {
                file: owned(file),
                line,
                column,
                line_text,
                match_text: owned(parts[i].text.as_str()),
            };
            let ghost before = models(out@);
            let ghost hit = m.deep_view();
            out.push(m);
            assert(models(out@) == before.push(hit));
        }
        i = i + 1;
    }
    out
}

/// The matches in one of the files that are searched.
pub open spec fn file_hits(f: Source, pattern: Seq<char>, ignore_case: bool) -> Seq<LineHit> {
    match f.content {
        Some(content) => {
            let parts = regex_parts(
                content,
                pattern,
                ignore_case,
                REGEX_SIZE_LIMIT as int,
                true,
                usize::BITS as int,
            );
            first_hits(f.path, content, parts, parts.len() as int)
        },
        None => Seq::empty(),
    }
}

/// The matches in files, file by file.
pub open spec fn files_hits(files: Seq<Source>, pattern: Seq<char>, ignore_case: bool) -> Seq<LineHit>
    decreases files.len(),
{
    if files.len() == 0 {
        Seq::empty()
    } else {
        files_hits(files.drop_last(), pattern, ignore_case) + file_hits(
            files.last(),
            pattern,
            ignore_case,
        )
    }
}

/// How many files can be read.
pub open spec fn readable_count(files: Seq<Source>) -> int
    decreases files.len(),
{
    if files.len() == 0 {
        0
    } else {
        readable_count(files.drop_last()) + (if files.last().content is Some {
            1int
        } else {
            0int
        })
    }
}

/// How many files have a match.
pub open spec fn hit_count(files: Seq<Source>, pattern: Seq<char>, ignore_case: bool) -> int
    decreases files.len(),
{
    if files.len() == 0 {
        0
    } else {
        hit_count(files.drop_last(), pattern, ignore_case) + (if file_hits(
            files.last(),
            pattern,
            ignore_case,
        ).len() > 0 {
            1int
        } else {
            0int
        })
    }
}

/// The first matches of a list, as many as are asked for.
pub open spec fn at_most(hits: Seq<LineHit>, max: int) -> Seq<LineHit> {
    if hits.len() > max {
        hits.take(max)
    } else {
        hits
    }
}

/// What a search without an index finds: every line with a match counts once, and matches
/// beyond the largest number are counted and left out.
pub open spec fn searched(
    files: Seq<Source>,
    pattern: Seq<char>,
    case_sensitive: bool,
    max: int,
    status: IndexStatus,
) -> Grepped {
    let hits = files_hits(files, pattern, !case_sensitive);
    if regex_fault(
        pattern,
        !case_sensitive,
        REGEX_SIZE_LIMIT as int,
        true,
        usize::BITS as int,
    ) is Some {
        Grepped {
            matches: Seq::empty(),
            total_matches: 0,
            files_searched: 0,
            files_with_matches: 0,
            index_status: status,
            truncated: false,
        }
    } else {
        Grepped {
            matches: at_most(hits, max),
            total_matches: capped(hits.len() as int),
            files_searched: readable_count(files),
            files_with_matches: hit_count(files, pattern, !case_sensitive),
            index_status: status,
            truncated: hits.len() > max,
        }
    }
}

fn add_hits(
    out: &mut Vec<GrepMatch>,
    found: Vec<GrepMatch>,
    max: usize,
    Ghost(hits): Ghost<Seq<LineHit>>,
) -> (truncated: bool)
    requires
        models(old(out)@) == at_most(hits, max as int),
    ensures
        models(final(out)@) == at_most(hits + models(found@), max as int),
        truncated == (found@.len() > 0 && hits.len() + found@.len() > max),
{
    broadcast use group_models;

    let ghost all = models(found@);
    let count = found.len();
    let mut rest = found;
    let mut truncated = false;
    let mut i: usize = 0;
    assert(rest@ =~= found@.skip(0));
    assert(hits + all.take(0) =~= hits);
    while i < count
        invariant
            i <= count,
            count == found@.len(),
            all == models(found@),
            rest@ == found@.skip(i as int),
            models(out@) == at_most(hits + all.take(i as int), max as int),
            truncated == (i > 0 && hits.len() + i > max),
        decreases count - i,
    {
        let m = rest.remove(0);
        assert(m == found@[i as int]);
        assert(rest@ =~= found@.skip(i + 1));
        assert(all[i as int] == m.deep_view());
        let ghost before = models(out@);
        let ghost model = m.deep_view();
        let ghost upto = hits + all.take(i as int);
        assert(hits + all.take(i + 1) =~= upto.push(model));
        if out.len() < max {
            out.push(m);
            assert(models(out@) == before.push(model));
            assert(upto.push(model).len() <= max);
        } else {
            truncated = true;
            assert(upto.len() >= max);
            assert(upto.push(model).take(max as int) =~= at_most(upto, max as int));
        }
        i = i + 1;
    }
    assert(all.take(i as int) =~= all);
    truncated
}

/// What a search without an index finds in `files`, before the matches are put in order.
pub fn fallback_grep(
    files: &Vec<SourceFile>,
    pattern: &str,
    case_sensitive: bool,
    max_results: usize,
    index_status: IndexStatus,
) -> (r: GrepResult)
    ensures
        r.deep_view() == searched(
            models(files@),
            pattern@,
            case_sensitive,
            max_results as int,
            index_status,
        ),
{
    broadcast use group_models;

    let ghost fs = models(files@);
    if check_regex(pattern, !case_sensitive, REGEX_SIZE_LIMIT, true).is_some() {
        return GrepResult {
            matches: Vec::new(),
            total_matches: 0,
            files_searched: 0,
            files_with_matches: 0,
            index_status,
            truncated: false,
        };
    }
    let mut matches: Vec<GrepMatch> = Vec::new();
    let mut total_matches: usize = 0;
    let mut files_searched: usize = 0;
    let mut files_with_matches: usize = 0;
    let mut truncated = false;
    let mut i: usize = 0;
    while i < files.len()
        invariant
            i <= files.len(),
            fs == models(files@),
            models(matches@) == at_most(
                files_hits(fs.take(i as int), pattern@, !case_sensitive),
                max_results as int,
            ),
            total_matches == capped(
                files_hits(fs.take(i as int), pattern@, !case_sensitive).len() as int,
            ),
            files_searched == readable_count(fs.take(i as int)),
            files_with_matches == hit_count(fs.take(i as int), pattern@, !case_sensitive),
            files_searched <= i,
            files_with_matches <= i,
            truncated == (files_hits(fs.take(i as int), pattern@, !case_sensitive).len()
                > max_results),
        decreases files.len() - i,
    {
        assert(fs.take(i + 1).drop_last() =~= fs.take(i as int));
        assert(fs[i as int] == files@[i as int].deep_view());
        let ghost hits = files_hits(fs.take(i as int), pattern@, !case_sensitive);
        match &files[i].content {
            Some(content) => {
                files_searched = files_searched + 1;
                let parts = find_parts(
                    content.as_str(),
                    pattern,
                    !case_sensitive,
                    REGEX_SIZE_LIMIT,
                    true,
                );
                let found = matches_on_lines(files[i].path.as_str(), content.as_str(), &parts);
                assert(models(parts@).len() == parts@.len());
                assert(models(found@) == file_hits(fs[i as int], pattern@, !case_sensitive));
                assert(models(found@).len() == found@.len());
                let count = found.len();
                total_matches = total_matches.saturating_add(count);
                if count > 0 {
                    files_with_matches = files_with_matches + 1;
                }
                if add_hits(&mut matches, found, max_results, Ghost(hits)) {
                    truncated = true;
                }
            },
            None => {
                assert(hits + file_hits(fs[i as int], pattern@, !case_sensitive) =~= hits);
            },
        }
        i = i + 1;
    }
    assert(fs.take(i as int) =~= fs);
    GrepResult {
        matches,
        total_matches,
        files_searched,
        files_with_matches,
        index_status,
        truncated,
    }
}

/// The text of a line as it is shown.
pub open spec fn shown_line(s: Seq<char>) -> Seq<char> {
    if s.len() <= MAX_LINE_CHARS {
        s
    } else {
        s.take(MAX_LINE_CHARS as int) + "…"@
    }
}

/// The text of a line as it is shown.
pub fn truncate_line_text(text: &str) -> (r: String)
    ensures
        r@ == shown_line(text@),
{
    let c = chars_of(text);
    if c.len() <= MAX_LINE_CHARS {
        return owned(text);
    }
    let head = string_of(vstd::slice::slice_subrange(c.as_slice(), 0, MAX_LINE_CHARS));
    assert(head@ =~= text@.take(MAX_LINE_CHARS as int));
    text2(head.as_str(), "…")
}

/// The path of a match as it is shown.
pub open spec fn shown_path(file: Seq<char>, root: Seq<char>) -> Seq<char> {
    if path_under(file, root) {
        path_relative(file, root)
    } else {
        file
    }
}

/// The path of a match as it is shown.
pub fn display_path(file: &str, root: &str) -> (r: String)
    ensures
        r@ == shown_path(file@, root@),
{
    if starts_with_path(file, root) {
        relative_to(file, root)
    } else {
        owned(file)
    }
}

/// The paths of matches as they are shown.
pub open spec fn shown_paths(hits: Seq<LineHit>, root: Seq<char>) -> Seq<Seq<char>> {
    hits.map_values(|h: LineHit| shown_path(h.file, root))
}

/// The lines of the first `n` of some matches.
pub open spec fn shown_hits(hits: Seq<LineHit>, list: Seq<int>, n: int) -> Seq<char>
    decreases n,
{
    if n <= 0 || n > list.len() {
        Seq::empty()
    } else {
        let hit = hits[list[n - 1]];
        shown_hits(hits, list, n - 1) + ("\n"@ + decimal(hit.line as nat) + ": "@ + shown_line(
            hit.line_text,
        ))
    }
}

/// What is shown of a file: its path, and its matches, only some where there are many.
pub open spec fn shown_file(file: Seq<char>, hits: Seq<LineHit>, list: Seq<int>) -> Seq<char> {
    if list.len() > MAX_MATCHES_PER_FILE {
        file + shown_hits(hits, list, MAX_DISPLAY_MATCHES_PER_FILE as int) + ("\n... and "@
            + decimal((list.len() - MAX_DISPLAY_MATCHES_PER_FILE) as nat) + " more matches"@)
    } else {
        file + shown_hits(hits, list, list.len() as int)
    }
}

/// What is shown of the files, in the order of their paths.
pub open spec fn shown_files(hits: Seq<LineHit>, root: Seq<char>) -> Seq<Seq<char>> {
    let paths = shown_paths(hits, root);
    keys_of(paths).map_values(
        |file: Seq<char>| shown_file(file, hits, under(paths, file, paths.len() as int)),
    )
}

/// The text that shows what a search found.
pub open spec fn grep_text(result: Grepped, root: Seq<char>) -> Seq<char> {
    let sections = shown_files(result.matches, root);
    let footer = "Found "@ + decimal(result.total_matches as nat) + " match(es) across "@ + decimal(
        result.files_with_matches as nat,
    ) + " file(s). [index: "@ + (result.index_status.label() + "]"@);
    if sections.len() == 0 {
        footer
    } else {
        joined(sections, "\n\n"@) + "\n\n"@ + footer
    }
}

fn show_file(file: &str, matches: &Vec<GrepMatch>, list: &Vec<usize>) -> (r: String)
    requires
        forall|i: int| 0 <= i < list@.len() ==> (#[trigger] list@[i]) < matches@.len(),
    ensures
        r@ == shown_file(file@, models(matches@), ints(list@)),
{
    let ghost hits = models(matches@);
    let ghost all = ints(list@);
    let count: usize = if list.len() > MAX_MATCHES_PER_FILE {
        MAX_DISPLAY_MATCHES_PER_FILE
    } else {
        list.len()
    };
    let mut section = owned(file);
    let mut i: usize = 0;
    assert(file@ + shown_hits(hits, all, 0) =~= file@);
    while i < count
        invariant
            i <= count <= list@.len(),
            hits == models(matches@),
            all == ints(list@),
            forall|k: int| 0 <= k < list@.len() ==> (#[trigger] list@[k]) < matches@.len(),
            section@ == file@ + shown_hits(hits, all, i as int),
        decreases count - i,
    {
        let m = &matches[list[i]];
        assert(all[i as int] == list@[i as int]);
        assert(hits[all[i as int]] == m.deep_view());
        let line = text4(
            "\n",
            decimal_text(m.line as u64).as_str(),
            ": ",
            truncate_line_text(m.line_text.as_str()).as_str(),
        );
        let ghost before = section@;
        section.append(line.as_str());
        assert(section@ =~= file@ + shown_hits(hits, all, i + 1));
        i = i + 1;
    }
    if list.len() > MAX_MATCHES_PER_FILE {
        let more = text3(
            "\n... and ",
            decimal_text((list.len() - MAX_DISPLAY_MATCHES_PER_FILE) as u64).as_str(),
            " more matches",
        );
        section.append(more.as_str());
    }
    section
}

/// The text that shows what a search found.
pub fn format_grep_text(result: &GrepResult, project_root: &str) -> (r: String)
    ensures
        r@ == grep_text(result.deep_view(), project_root@),
{
    let ghost hits = models(result.matches@);
    let ghost paths = shown_paths(hits, project_root@);
    let mut keys: Vec<String> = Vec::new();
    let mut i: usize = 0;
    while i < result.matches.len()
        invariant
            i <= result.matches.len(),
            keys@.len() == i,
            forall|k: int|
                0 <= k < i ==> (#[trigger] keys@[k])@ == shown_path(
                    result.matches@[k].file@,
                    project_root@,
                ),
        decreases result.matches.len() - i,
    {
        keys.push(display_path(result.matches[i].file.as_str(), project_root));
        i = i + 1;
    }
    assert(texts(keys@) =~= paths);
    let files = ordered_keys(&keys);
    let ghost want = shown_files(hits, project_root@);
    let mut sections: Vec<String> = Vec::new();
    let mut k: usize = 0;
    assert(texts(files@).len() == files@.len());
    while k < files.len()
        invariant
            k <= files.len(),
            hits == models(result.matches@),
            paths == shown_paths(hits, project_root@),
            texts(keys@) == paths,
            keys@.len() == result.matches@.len(),
            texts(files@) == keys_of(paths),
            want == shown_files(hits, project_root@),
            want.len() == files@.len(),
            sections@.len() == k,
            forall|j: int| 0 <= j < k ==> (#[trigger] sections@[j])@ == want[j],
        decreases files.len() - k,
    {
        let list = indices_under(&keys, files[k].as_str());
        assert(texts(files@)[k as int] == files@[k as int]@);
        assert(paths.len() == keys@.len());
        sections.push(show_file(files[k].as_str(), &result.matches, &list));
        k = k + 1;
    }
    assert(texts(sections@) =~= want);
    let end = text2(index_status_label(result.index_status), "]");
    let mut footer = text5(
        "Found ",
        decimal_text(result.total_matches as u64).as_str(),
        " match(es) across ",
        decimal_text(result.files_with_matches as u64).as_str(),
        " file(s). [index: ",
    );
    footer.append(end.as_str());
    if sections.len() == 0 {
        footer
    } else {
        text3(join(&sections, "\n\n").as_str(), "\n\n", footer.as_str())
    }
}

/// A request to search.
pub struct GrepRequest {
    pub pattern: String,
    pub case_sensitive: bool,
    pub including: Vec<String>,
    pub excluding: Vec<String>,
    pub max_results: usize,
    /// The path to search below, as it was validated.
    pub path: Option<String>,
}

/// The model of a `GrepRequest`.
pub ghost struct GrepAsk {
    pub pattern: Seq<char>,
    pub case_sensitive: bool,
    pub including: Seq<Seq<char>>,
    pub excluding: Seq<Seq<char>>,
    pub max_results: usize,
    pub path: Option<Seq<char>>,
}

impl DeepView for GrepRequest {
    type V = GrepAsk;

    open spec fn deep_view(&self) -> GrepAsk {
        GrepAsk {
            pattern: self.pattern@,
            case_sensitive: self.case_sensitive,
            including: texts(self.including@),
            excluding: texts(self.excluding@),
            max_results: self.max_results,
            path: self.path.deep_view(),
        }
    }
}

/// The path that a request searches below, where it names one. `validated` is what became of
/// the path that it names.
pub open spec fn searched_path(params: Json, validated: Result<String, Refusal>) -> Result<
    Option<Seq<char>>,
    RefusalModel,
> {
    match params.text_field("path"@) {
        None => Ok(None),
        Some(_) => match validated {
            Ok(path) => Ok(Some(path@)),
            Err(e) => Err(e.deep_view()),
        },
    }
}

/// The path that a request searches below, where it names one.
pub fn read_searched_path(params: &Json, validated: Result<String, Refusal>) -> (r: Result<
    Option<String>,
    Refusal,
>)
    ensures
        verdict(r) == searched_path(*params, validated),
{
    match params.get_text("path") {
        None => Ok(None),
        Some(_) => match validated {
            Ok(path) => Ok(Some(path)),
            Err(e) => Err(e),
        },
    }
}

/// The request that the parameters make. `validated` is what became of the path that they
/// name, and `filter_fault` says what is wrong with the filters.
pub open spec fn grep_ask(
    params: Json,
    validated: Result<String, Refusal>,
    filter_fault: Option<Seq<char>>,
) -> Result<GrepAsk, RefusalModel> {
    match needed(params, "grep"@, "pattern"@) {
        Err(e) => Err(e),
        Ok(pattern) => {
            let case_sensitive = params.flag_field("case_sensitive"@) != Some(false);
            match searched_path(params, validated) {
                Err(e) => Err(e),
                Ok(path) => match regex_fault(
                    pattern,
                    !case_sensitive,
                    REGEX_SIZE_LIMIT as int,
                    true,
                    usize::BITS as int,
                ) {
                    Some(why) => Err(
                        RefusalModel::Pattern {
                            code: "invalid_pattern"@,
                            message: "invalid regex: "@ + why,
                            pattern,
                        },
                    ),
                    None => match filter_fault {
                        Some(why) => Err(
                            invalid("grep: invalid include/exclude glob: "@ + why),
                        ),
                        None => Ok(
                            GrepAsk {
                                pattern,
                                case_sensitive,
                                including: listed(params, "include"@),
                                excluding: listed(params, "exclude"@),
                                max_results: match params.unsigned_field("max_results"@) {
                                    Some(n) => n as usize,
                                    None => DEFAULT_MAX_RESULTS,
                                },
                                path,
                            },
                        ),
                    },
                },
            }
        },
    }
}

/// The request that the parameters make.
pub fn read_grep_request(
    params: &Json,
    validated: Result<String, Refusal>,
    filter_fault: Option<&str>,
) -> (r: Result<GrepRequest, Refusal>)
    ensures
        verdict(r) == grep_ask(*params, validated, given_text(filter_fault)),
{
    let pattern = match need(params, "grep", "pattern") {
        Ok(s) => s,
        Err(e) => {
            return Err(e);
        },
    };
    let case_sensitive = match params.get_flag("case_sensitive") {
        Some(b) => b,
        None => true,
    };
    let path = match read_searched_path(params, validated) {
        Ok(p) => p,
        Err(e) => {
            return Err(e);
        },
    };
    match check_regex(pattern, !case_sensitive, REGEX_SIZE_LIMIT, true) {
        Some(why) => {
            return Err(
                Refusal::Pattern {
                    code: owned("invalid_pattern"),
                    message: text2("invalid regex: ", why.as_str()),
                    pattern: owned(pattern),
                },
            );
        },
        None => {},
    }
    match filter_fault {
        Some(why) => {
            return Err(reject(text2("grep: invalid include/exclude glob: ", why).as_str()));
        },
        None => {},
    }
    let max_results: usize = match params.get_unsigned("max_results") {
        Some(n) => n as usize,
        None => DEFAULT_MAX_RESULTS,
    };
    Ok(
        GrepRequest {
            pattern: owned(pattern),
            case_sensitive,
            including: list_of(params, "include"),
            excluding: list_of(params, "exclude"),
            max_results,
            path,
        },
    )
}

/// How a search is made.
#[derive(Clone, Copy, Debug, PartialEq, Eq, Structural)]
pub enum SearchWay {
    /// In the index.
    Index,
    /// By the search program, or file by file where there is none.
    Program,
    /// File by file.
    Files,
}

/// How a search is made: in the index where it covers the root and is ready, and by the
/// search program where it does not cover the root.
pub open spec fn search_way(covered: bool, index: Option<bool>) -> SearchWay {
    if !covered {
        SearchWay::Program
    } else if index == Some(true) {
        SearchWay::Index
    } else {
        SearchWay::Files
    }
}

/// How a search is made. `covered` says whether the index covers the root, and `index` whether
/// there is one and whether it is ready.
pub fn choose_way(covered: bool, index: Option<bool>) -> (r: SearchWay)
    ensures
        r == search_way(covered, index),
{
    if !covered {
        return SearchWay::Program;
    }
    match index {
        Some(true) => SearchWay::Index,
        _ => SearchWay::Files,
    }
}

/// How a request to search is met, and the status of the index that is told of it.
pub fn handle_grep(
    params: &Json,
    validated: Result<String, Refusal>,
    filter_fault: Option<&str>,
    root: &str,
    root_exists: bool,
    covered: bool,
    index: Option<bool>,
    awaited: bool,
) -> (r: Result<(GrepRequest, SearchWay, IndexStatus), Refusal>)
    ensures
        match (r, grep_ask(*params, validated, given_text(filter_fault))) {
            (Err(e), Err(m)) => e.deep_view() == m,
            (Err(e), Ok(_)) => !root_exists && e.deep_view() == refused(
                "path_not_found"@,
                "grep: search path does not exist: "@ + root@,
            ),
            (Ok(plan), Ok(ask)) => root_exists && plan.0.deep_view() == ask && plan.1
                == search_way(covered, index) && plan.2 == (if !covered {
                IndexStatus::Fallback
            } else if index == Some(true) {
                IndexStatus::Ready
            } else if awaited || index is Some {
                IndexStatus::Building
            } else {
                IndexStatus::Fallback
            }),
            _ => false,
        },
{
    let ask = match read_grep_request(params, validated, filter_fault) {
        Ok(a) => a,
        Err(e) => {
            return Err(e);
        },
    };
    if !root_exists {
        return Err(
            refuse("path_not_found", text2("grep: search path does not exist: ", root)),
        );
    }
    let status = if covered {
        current_index_status(index, awaited)
    } else {
        IndexStatus::Fallback
    };
    Ok((ask, choose_way(covered, index), status))
}

/// A filter that excludes what it names.
pub open spec fn negated(glob: Seq<char>) -> Seq<char> {
    if excludes(glob) {
        glob
    } else {
        "!"@ + glob
    }
}

/// The arguments for the first `n` filters.
pub open spec fn glob_args(globs: Seq<Seq<char>>, exclude: bool, n: int) -> Seq<Seq<char>>
    decreases n,
{
    if n <= 0 || n > globs.len() {
        Seq::empty()
    } else {
        glob_args(globs, exclude, n - 1).push("--glob"@).push(
            if exclude {
                negated(globs[n - 1])
            } else {
                globs[n - 1]
            },
        )
    }
}

/// The arguments that the search program gets.
pub open spec fn program_args(ask: GrepAsk, root: Seq<char>) -> Seq<Seq<char>> {
    seq!["-nH"@, "--hidden"@, "--no-messages"@, "--json"@] + (if ask.case_sensitive {
        Seq::empty()
    } else {
        seq!["-i"@]
    }) + glob_args(ask.including, false, ask.including.len() as int) + glob_args(
        ask.excluding,
        true,
        ask.excluding.len() as int,
    ) + seq!["--regexp"@, ask.pattern, root]
}

fn push_text(out: &mut Vec<String>, s: &str)
    ensures
        texts(final(out)@) == texts(old(out)@).push(s@),
{
    out.push(owned(s));
    assert(texts(out@) =~= texts(old(out)@).push(s@));
}

fn push_globs(out: &mut Vec<String>, globs: &Vec<String>, exclude: bool)
    ensures
        texts(final(out)@) == texts(old(out)@) + glob_args(
            texts(globs@),
            exclude,
            globs@.len() as int,
        ),
{
    let ghost start = texts(out@);
    let ghost all = texts(globs@);
    let mut i: usize = 0;
    assert(start + glob_args(all, exclude, 0) =~= start);
    while i < globs.len()
        invariant
            i <= globs.len(),
            all == texts(globs@),
            texts(out@) == start + glob_args(all, exclude, i as int),
        decreases globs.len() - i,
    {
        assert(all[i as int] == globs@[i as int]@);
        push_text(out, "--glob");
        if exclude && !is_exclusion(globs[i].as_str()) {
            push_text(out, text2("!", globs[i].as_str()).as_str());
        } else {
            push_text(out, globs[i].as_str());
        }
        assert(texts(out@) =~= start + glob_args(all, exclude, i + 1));
        i = i + 1;
    }
}

/// The arguments that the search program gets.
pub fn ripgrep_args(ask: &GrepRequest, root: &str) -> (r: Vec<String>)
    ensures
        texts(r@) == program_args(ask.deep_view(), root@),
{
    let mut out: Vec<String> = Vec::new();
    push_text(&mut out, "-nH");
    push_text(&mut out, "--hidden");
    push_text(&mut out, "--no-messages");
    push_text(&mut out, "--json");
    assert(texts(out@) =~= seq!["-nH"@, "--hidden"@, "--no-messages"@, "--json"@]);
    if !ask.case_sensitive {
        push_text(&mut out, "-i");
    }
    push_globs(&mut out, &ask.including, false);
    push_globs(&mut out, &ask.excluding, true);
    push_text(&mut out, "--regexp");
    push_text(&mut out, ask.pattern.as_str());
    push_text(&mut out, root);
    assert(texts(ask.including@).len() == ask.including@.len());
    assert(texts(ask.excluding@).len() == ask.excluding@.len());
    assert(texts(out@) =~= program_args(ask.deep_view(), root@));
    out
}

/// A text without line ends at its end.
pub open spec fn without_line_end(s: Seq<char>) -> Seq<char>
    decreases s.len(),
{
    if s.len() > 0 && (s.last() == '\r' || s.last() == '\n') {
        without_line_end(s.drop_last())
    } else {
        s
    }
}

fn cut_line_end(s: &str) -> (r: String)
    ensures
        r@ == without_line_end(s@),
{
    let c = chars_of(s);
    let mut n: usize = c.len();
    assert(c@.take(n as int) =~= c@);
    while n > 0 && (c[n - 1] == '\r' || c[n - 1] == '\n')
        invariant
            n <= c.len(),
            c@ == s@,
            without_line_end(s@) == without_line_end(c@.take(n as int)),
        decreases n,
    {
        assert(c@.take(n as int).drop_last() =~= c@.take(n - 1));
        n = n - 1;
    }
    string_of(vstd::slice::slice_subrange(c.as_slice(), 0, n))
}

/// What a line of the search program's output says.
pub ghost enum Report {
    /// That it is no match.
    Other,
    Match(LineHit),
    /// Nothing that can be read.
    Unreadable,
}

/// The text under two keys.
pub open spec fn text_below(v: Json, a: Seq<char>, b: Seq<char>) -> Option<Seq<char>> {
    match v.field(a) {
        Some(inner) => inner.text_field(b),
        None => None,
    }
}

fn get_text_below<'a>(v: &'a Json, a: &str, b: &str) -> (r: Option<&'a str>)
    ensures
        given_text(r) == text_below(*v, a@, b@),
{
    match v.get(a) {
        Some(inner) => inner.get_text(b),
        None => None,
    }
}

/// What a line of the search program's output says.
pub open spec fn report_of(line: Option<Json>) -> Report {
    match line {
        None => Report::Unreadable,
        Some(v) => if v.text_field("type"@) != Some("match"@) {
            Report::Other
        } else {
            match v.field("data"@) {
                None => Report::Unreadable,
                Some(data) => match (
                    text_below(data, "path"@, "text"@),
                    data.unsigned_field("line_number"@),
                    text_below(data, "lines"@, "text"@),
                ) {
                    (Some(file), Some(n), Some(text)) => if n > u32::MAX {
                        Report::Unreadable
                    } else {
                        Report::Match(
                            LineHit {
                                file,
                                line: n as int,
                                column: 0,
                                line_text: without_line_end(text),
                                match_text: Seq::empty(),
                            },
                        )
                    },
                    _ => Report::Unreadable,
                },
            }
        },
    }
}

/// The matches in the first `n` lines of the search program's output, where all of them can
/// be read.
pub open spec fn reported(lines: Seq<Option<Json>>, n: int) -> Option<Seq<LineHit>>
    decreases n,
{
    if n <= 0 || n > lines.len() {
        Some(Seq::empty())
    } else {
        match reported(lines, n - 1) {
            None => None,
            Some(before) => match report_of(lines[n - 1]) {
                Report::Unreadable => None,
                Report::Other => Some(before),
                Report::Match(hit) => Some(before.push(hit)),
            },
        }
    }
}

/// What tells the files of matches apart.
pub open spec fn file_keys(hits: Seq<LineHit>) -> Seq<Seq<char>> {
    hits.map_values(|h: LineHit| rendered(path_components(h.file)))
}

/// What the search program found, from the lines of its output, where all of them can be read.
pub open spec fn program_result(lines: Seq<Option<Json>>, max: int) -> Option<Grepped> {
    match reported(lines, lines.len() as int) {
        None => None,
        Some(hits) => Some(
            Grepped {
                matches: at_most(hits, max),
                total_matches: hits.len() as int,
                files_searched: 0,
                files_with_matches: distinct(file_keys(hits)).len() as int,
                index_status: IndexStatus::Fallback,
                truncated: hits.len() > max,
            },
        ),
    }
}

fn read_report(line: &Option<Json>) -> (r: Result<Option<GrepMatch>, ()>)
    ensures
        match (r, report_of(*line)) {
            (Err(_), Report::Unreadable) => true,
            (Ok(None), Report::Other) => true,
            (Ok(Some(m)), Report::Match(hit)) => m.deep_view() == hit,
            _ => false,
        },
{
    let v = match line {
        Some(v) => v,
        None => {
            return Err(());
        },
    };
    let is_match = match v.get_text("type") {
        Some(s) => same(s, "match"),
        None => false,
    };
    if !is_match {
        return Ok(None);
    }
    let data = match v.get("data") {
        Some(d) => d,
        None => {
            return Err(());
        },
    };
    match (
        get_text_below(data, "path", "text"),
        data.get_unsigned("line_number"),
        get_text_below(data, "lines", "text"),
    ) {
        (Some(file), Some(n), Some(text)) => {
            if n > u32::MAX as u64 {
                return Err(());
            }
            let empty = String::new();
            assert(empty@ =~= Seq::<char>::empty());
            Ok(
                Some(
                    GrepMatch {
                        file: owned(file),
                        line: n as u32,
                        column: 0,
                        line_text: cut_line_end(text),
                        match_text: empty,
                    },
                ),
            )
        },
        _ => Err(()),
    }
}

proof fn lemma_unreadable_stays(lines: Seq<Option<Json>>, n: int, m: int)
    requires
        0 <= n <= m <= lines.len(),
        reported(lines, n) is None,
    ensures
        reported(lines, m) is None,
    decreases m,
{
    if n < m {
        lemma_unreadable_stays(lines, n, m - 1);
    }
}

/// What the search program found, from the lines of its output.
pub fn ripgrep_grep(lines: &Vec<Option<Json>>, max_results: usize) -> (r: Option<GrepResult>)
    ensures
        r.deep_view() == program_result(lines@, max_results as int),
{
    broadcast use group_models;

    let mut matches: Vec<GrepMatch> = Vec::new();
    let mut files: Vec<String> = Vec::new();
    let mut total_matches: usize = 0;
    let mut truncated = false;
    let mut i: usize = 0;
    assert(file_keys(Seq::empty()) =~= Seq::<Seq<char>>::empty());
    while i < lines.len()
        invariant
            i <= lines.len(),
            reported(lines@, i as int) is Some,
            ({
                let hits = reported(lines@, i as int)->0;
                models(matches@) == at_most(hits, max_results as int) && total_matches
                    == hits.len() && total_matches <= i && truncated == (hits.len() > max_results)
                    && models(files@) == distinct(file_keys(hits))
            }),
        decreases lines.len() - i,
    {
        let ghost hits = reported(lines@, i as int)->0;
        match read_report(&lines[i]) {
            Err(_) => {
                proof {
                    lemma_unreadable_stays(lines@, i + 1, lines@.len() as int);
                }
                return None;
            },
            Ok(None) => {},
            Ok(Some(m)) => {
                let ghost before = models(matches@);
                let ghost hit = m.deep_view();
                proof {
                    assert(file_keys(hits.push(hit)) =~= file_keys(hits).push(
                        rendered(path_components(hit.file)),
                    ));
                    assert(file_keys(hits.push(hit)).drop_last() =~= file_keys(hits));
                }
                total_matches = total_matches + 1;
                add_distinct(&mut files, render(&components(m.file.as_str())));
                if matches.len() < max_results {
                    matches.push(m);
                    assert(models(matches@) == before.push(hit));
                } else {
                    truncated = true;
                    assert(hits.push(hit).take(max_results as int) =~= at_most(
                        hits,
                        max_results as int,
                    ));
                }
            },
        }
        i = i + 1;
    }
    assert(models(files@).len() == files@.len());
    Some(
        GrepResult {
            matches,
            total_matches,
            files_searched: 0,
            files_with_matches: files.len(),
            index_status: IndexStatus::Fallback,
            truncated,
        },
    )
}

/// The arguments that the search program gets to list the files that a pattern names.
pub fn ripgrep_glob_args(pattern: &str, root: &str) -> (r: Vec<String>)
    ensures
        texts(r@) == seq!["--files"@, "--hidden"@, "--glob=!.git/*"@, "--glob="@ + pattern@, root@],
{
    let mut out: Vec<String> = Vec::new();
    push_text(&mut out, "--files");
    push_text(&mut out, "--hidden");
    push_text(&mut out, "--glob=!.git/*");
    push_text(&mut out, text2("--glob=", pattern).as_str());
    push_text(&mut out, root);
    assert(texts(out@) =~= seq![
        "--files"@,
        "--hidden"@,
        "--glob=!.git/*"@,
        "--glob="@ + pattern@,
        root@,
    ]);
    out
}

/// The files that the search program lists, no more than are asked for.
pub fn ripgrep_glob(output: &str, max_results: usize) -> (r: Vec<String>)
    ensures
        texts(r@) == (if lines_of(output@).len() > max_results {
            lines_of(output@).take(max_results as int)
        } else {
            lines_of(output@)
        }),
{
    let mut all = lines(output);
    assert(texts(all@).len() == all@.len());
    if all.len() > max_results {
        all.truncate(max_results);
        assert(texts(all@) =~= lines_of(output@).take(max_results as int));
    }
    all
}

/// No two matches of a file lie on the same line, and none is given that is not counted.
pub proof fn lines_match_once(file: Seq<char>, content: Seq<char>, parts: Seq<Part>, n: int)
    requires
        0 <= n <= parts.len(),
    ensures
        forall|i: int, j: int|
            0 <= i < j < first_hits(file, content, parts, n).len() ==> (#[trigger] first_hits(
                file,
                content,
                parts,
                n,
            )[i]).line != (#[trigger] first_hits(file, content, parts, n)[j]).line,
        forall|k: int|
            0 <= k < n ==> has_line(
                first_hits(file, content, parts, n),
                hit_of(file, content, #[trigger] parts[k]).line,
            ),
    decreases n,
{
    if n > 0 {
        lines_match_once(file, content, parts, n - 1);
        let before = first_hits(file, content, parts, n - 1);
        let after = first_hits(file, content, parts, n);
        let hit = hit_of(file, content, parts[n - 1]);
        assert forall|k: int| 0 <= k < n implies has_line(
            after,
            hit_of(file, content, #[trigger] parts[k]).line,
        ) by {
            let line = hit_of(file, content, parts[k]).line;
            if k < n - 1 {
                let i = choose|i: int| 0 <= i < before.len() && (#[trigger] before[i]).line == line;
                assert(after[i].line == line);
            } else if !has_line(before, line) {
                assert(after[before.len() as int].line == line);
            }
        }
    }
}

/// A search gives as many matches as it counts, or as many as are asked for where there are
/// more, and says so.
pub proof fn results_are_cut_at_the_limit(
    files: Seq<Source>,
    pattern: Seq<char>,
    case_sensitive: bool,
    max: int,
    status: IndexStatus,
)
    requires
        0 <= max <= usize::MAX,
    ensures
        ({
            let r = searched(files, pattern, case_sensitive, max, status);
            &&& r.matches.len() <= max
            &&& r.truncated <==> r.matches.len() < files_hits(files, pattern, !case_sensitive).len()
                && regex_fault(
                pattern,
                !case_sensitive,
                REGEX_SIZE_LIMIT as int,
                true,
                usize::BITS as int,
            ) is None
            &&& r.matches.len() <= r.total_matches
            &&& !r.truncated ==> r.matches.len() == r.total_matches
        }),
{
}

/// Whether an argument follows another directly.
pub open spec fn has_pair(args: Seq<Seq<char>>, a: Seq<char>, b: Seq<char>) -> bool {
    exists|k: int| 0 <= k < args.len() - 1 && #[trigger] args[k] == a && args[k + 1] == b
}

/// Whether a list that a parameter gives holds a text.
pub open spec fn lists_text(params: Json, key: Seq<char>, s: Seq<char>) -> bool {
    params.items_field(key) is Some && exists|i: int|
        0 <= i < (params.items_field(key)->0).len() && (#[trigger] (params.items_field(
            key,
        )->0)[i]).text() == Some(s)
}

/// How many texts a list that a parameter gives holds.
pub open spec fn text_count(params: Json, key: Seq<char>) -> int {
    match params.items_field(key) {
        Some(items) => items.filter(|j: Json| j is Text).len() as int,
        None => 0,
    }
}

proof fn lemma_texts_among(items: Seq<Json>)
    ensures
        texts_among(items).len() == items.filter(|j: Json| j is Text).len(),
        forall|s: Seq<char>| #[trigger]
            texts_among(items).contains(s) <==> exists|i: int|
                0 <= i < items.len() && (#[trigger] items[i]).text() == Some(s),
    decreases items.len(),
{
    reveal(Seq::filter);
    if items.len() > 0 {
        let less = items.drop_last();
        let all = texts_among(items);
        let rest = texts_among(less);
        lemma_texts_among(less);
        assert forall|s: Seq<char>| #[trigger] all.contains(s) <==> exists|i: int|
            0 <= i < items.len() && (#[trigger] items[i]).text() == Some(s) by {
            if all.contains(s) {
                let k = choose|k: int| 0 <= k < all.len() && all[k] == s;
                if k < rest.len() {
                    assert(rest.contains(rest[k]));
                    let i = choose|i: int|
                        0 <= i < less.len() && (#[trigger] less[i]).text() == Some(s);
                    assert(items[i].text() == Some(s));
                } else {
                    assert(items[items.len() - 1].text() == Some(s));
                }
            }
            if exists|i: int| 0 <= i < items.len() && (#[trigger] items[i]).text() == Some(s) {
                let i = choose|i: int|
                    0 <= i < items.len() && (#[trigger] items[i]).text() == Some(s);
                if i < less.len() {
                    assert(less[i].text() == Some(s));
                    assert(rest.contains(s));
                    let k = choose|k: int| 0 <= k < rest.len() && rest[k] == s;
                    assert(all[k] == s);
                } else {
                    assert(all[rest.len() as int] == s);
                }
            }
        }
    }
}

proof fn lemma_glob_args(globs: Seq<Seq<char>>, exclude: bool, n: int, i: int)
    requires
        0 <= i < n <= globs.len(),
    ensures
        glob_args(globs, exclude, n).len() == 2 * n,
        glob_args(globs, exclude, n)[2 * i] == "--glob"@,
        glob_args(globs, exclude, n)[2 * i + 1] == (if exclude {
            negated(globs[i])
        } else {
            globs[i]
        }),
    decreases n,
{
    lemma_glob_args_len(globs, exclude, n - 1);
    if i < n - 1 {
        lemma_glob_args(globs, exclude, n - 1, i);
    }
}

proof fn lemma_glob_args_len(globs: Seq<Seq<char>>, exclude: bool, n: int)
    requires
        0 <= n <= globs.len(),
    ensures
        glob_args(globs, exclude, n).len() == 2 * n,
    decreases n,
{
    if n > 0 {
        lemma_glob_args_len(globs, exclude, n - 1);
    }
}

/// What a request asks for reaches the search program: every filter to be kept to as it stands,
/// every filter to be left out with an exclamation mark before it, unless it has one, the switch
/// for letters of either case only where the request turns case off, and the pattern and the root
/// at the end. Nothing else is handed over.
pub proof fn filters_reach_the_search_program(
    params: Json,
    validated: Result<String, Refusal>,
    root: Seq<char>,
)
    requires
        grep_ask(params, validated, None) is Ok,
    ensures
        ({
            let args = program_args(grep_ask(params, validated, None)->Ok_0, root);
            let n = args.len() as int;
            let ignores_case = params.flag_field("case_sensitive"@) == Some(false);
            &&& forall|s: Seq<char>| #[trigger]
                lists_text(params, "include"@, s) ==> has_pair(args, "--glob"@, s)
            &&& forall|s: Seq<char>| #[trigger]
                lists_text(params, "exclude"@, s) ==> has_pair(
                    args,
                    "--glob"@,
                    if s.len() > 0 && s[0] == '!' {
                        s
                    } else {
                        seq!['!'] + s
                    },
                )
            &&& args.take(4) == seq!["-nH"@, "--hidden"@, "--no-messages"@, "--json"@]
            &&& ignores_case ==> args[4] == "-i"@
            &&& n == 7 + (if ignores_case {
                1int
            } else {
                0
            }) + 2 * text_count(params, "include"@) + 2 * text_count(params, "exclude"@)
            &&& args[n - 3] == "--regexp"@
            &&& Some(args[n - 2]) == params.text_field("pattern"@)
            &&& args[n - 1] == root
        }),
{
    let ask = grep_ask(params, validated, None)->Ok_0;
    let args = program_args(ask, root);
    let inc = ask.including;
    let exc = ask.excluding;
    let ignores_case = params.flag_field("case_sensitive"@) == Some(false);
    let head = seq!["-nH"@, "--hidden"@, "--no-messages"@, "--json"@] + (if ignores_case {
        seq!["-i"@]
    } else {
        Seq::empty()
    });
    lemma_glob_args_len(inc, false, inc.len() as int);
    lemma_glob_args_len(exc, true, exc.len() as int);
    match params.items_field("include"@) {
        Some(items) => {
            lemma_texts_among(items);
        },
        None => {},
    }
    match params.items_field("exclude"@) {
        Some(items) => {
            lemma_texts_among(items);
        },
        None => {},
    }
    let h = head.len() as int;
    let kept = glob_args(inc, false, inc.len() as int);
    let left = glob_args(exc, true, exc.len() as int);
    assert(args =~= head + kept + left + seq!["--regexp"@, ask.pattern, root]);
    assert(args.take(4) =~= seq!["-nH"@, "--hidden"@, "--no-messages"@, "--json"@]);
    assert forall|s: Seq<char>| #[trigger] lists_text(params, "include"@, s) implies has_pair(
        args,
        "--glob"@,
        s,
    ) by {
        let items = params.items_field("include"@)->0;
        let j = choose|j: int| 0 <= j < items.len() && (#[trigger] items[j]).text() == Some(s);
        assert(items[j].text() == Some(s));
        assert(inc.contains(s));
        let i = choose|i: int| 0 <= i < inc.len() && inc[i] == s;
        lemma_glob_args(inc, false, inc.len() as int, i);
        assert(args[h + 2 * i] == "--glob"@);
        assert(args[h + 2 * i + 1] == s);
    }
    assert forall|s: Seq<char>| #[trigger] lists_text(params, "exclude"@, s) implies has_pair(
        args,
        "--glob"@,
        if s.len() > 0 && s[0] == '!' {
            s
        } else {
            seq!['!'] + s
        },
    ) by {
        let items = params.items_field("exclude"@)->0;
        let j = choose|j: int| 0 <= j < items.len() && (#[trigger] items[j]).text() == Some(s);
        assert(items[j].text() == Some(s));
        assert(exc.contains(s));
        let i = choose|i: int| 0 <= i < exc.len() && exc[i] == s;
        lemma_glob_args(exc, true, exc.len() as int, i);
        reveal_strlit("!");
        assert("!"@ =~= seq!['!']);
        let at = h + 2 * inc.len() + 2 * i;
        assert(args[at] == "--glob"@);
        assert(args[at + 1] == negated(s));
    }
}

/// A request is taken as it is written: its pattern, its limit or a hundred, its path as it was
/// found allowed, and with case unless it says otherwise. Without a pattern, with a path that is
/// not allowed, or with a pattern that is no regular expression it is refused, and only so.
pub proof fn requests_are_taken_as_written(params: Json, validated: Result<String, Refusal>)
    ensures
        grep_ask(params, validated, None) is Ok <==> {
            &&& params.text_field("pattern"@) is Some
            &&& params.text_field("path"@) is None || validated is Ok
            &&& regex_fault(
                params.text_field("pattern"@)->0,
                params.flag_field("case_sensitive"@) == Some(false),
                10485760int,
                true,
                usize::BITS as int,
            ) is None
        },
        params.text_field("pattern"@) is None ==> grep_ask(params, validated, None) is Err,
        match grep_ask(params, validated, None) {
            Ok(ask) => {
                &&& Some(ask.pattern) == params.text_field("pattern"@)
                &&& ask.case_sensitive <==> params.flag_field("case_sensitive"@) != Some(false)
                &&& params.unsigned_field("max_results"@) is None ==> ask.max_results == 100
                &&& params.unsigned_field("max_results"@) is Some && params.unsigned_field(
                    "max_results"@,
                )->0 <= usize::MAX ==> ask.max_results == params.unsigned_field("max_results"@)->0
                &&& params.text_field("path"@) is None ==> ask.path is None
                &&& params.text_field("path"@) is Some ==> validated is Ok && ask.path == Some(
                    (validated->Ok_0)@,
                )
            },
            Err(_) => true,
        },
{
}

/// A match is told on the line behind as many line feeds as come before it, in the column behind
/// the characters that stand before it on that line, with the text of the line.
pub proof fn matches_are_told_where_they_stand(file: Seq<char>, content: Seq<char>, part: Part)
    requires
        0 <= part.start <= bytes(content).len(),
        bytes(content).len() < u32::MAX,
    ensures
        ({
            let b = bytes(content);
            let hit = hit_of(file, content, part);
            let start = line_start(b, part.start);
            let end = line_end(b, start);
            &&& hit.file == file
            &&& hit.match_text == part.text
            &&& hit.line == line_feeds(b, part.start) + 1
            &&& piece(content, start, part.start).len() < u32::MAX ==> hit.column == piece(
                content,
                start,
                part.start,
            ).len() + 1
            &&& hit.line_text.is_prefix_of(piece(content, start, end))
            &&& start <= part.start <= end
            &&& on_one_line(b, start, end)
            &&& start == 0 || b[start - 1] == 10
            &&& end == b.len() || b[end] == 10
        }),
{
    let b = bytes(content);
    let start = line_start(b, part.start);
    line_start_is_on_the_line(b, part.start);
    first_byte_is_found(b, LINE_FEED, start);
    lemma_starts_count(b, part.start);
    lemma_line_feeds_bound(b, part.start);
    lemma_trailing_prefix(piece(content, start, line_end(b, start)), '\r');
}

proof fn lemma_starts_count(b: Seq<u8>, n: int)
    requires
        0 <= n <= b.len(),
    ensures
        starts_upto(b, n).len() == line_feeds(b, n) + 1,
    decreases n,
{
    if n > 0 {
        lemma_starts_count(b, n - 1);
    }
}

proof fn lemma_line_feeds_bound(b: Seq<u8>, n: int)
    requires
        0 <= n <= b.len(),
    ensures
        line_feeds(b, n) <= n,
    decreases n,
{
    if n > 0 {
        lemma_line_feeds_bound(b, n - 1);
    }
}

proof fn lemma_trailing_prefix(s: Seq<char>, c: char)
    ensures
        without_trailing(s, c).is_prefix_of(s),
    decreases s.len(),
{
    if s.len() > 0 && s.last() == c {
        lemma_trailing_prefix(s.drop_last(), c);
        let kept = without_trailing(s.drop_last(), c);
        assert(kept =~= s.drop_last().take(kept.len() as int));
        assert(kept =~= s.take(kept.len() as int));
    } else {
        assert(s =~= s.take(s.len() as int));
    }
}

/// A line of the search program's output that tells of a match is read as it is: the file, the
/// line and the text that it names. Other lines are passed over.
pub proof fn reports_are_read_as_written(v: Json, data: Json, path: Json, text: Json)
    ensures
        v.text_field("type"@) != Some("match"@) ==> report_of(Some(v)) == Report::Other,
        v.text_field("type"@) == Some("match"@) && v.field("data"@) == Some(data) && data.field(
            "path"@,
        ) == Some(path) && data.field("lines"@) == Some(text) && path.text_field("text"@) is Some
            && text.text_field("text"@) is Some && data.unsigned_field("line_number"@) is Some
            && data.unsigned_field("line_number"@)->0 <= u32::MAX ==> match report_of(Some(v)) {
            Report::Match(hit) => {
                let line = text.text_field("text"@)->0;
                &&& Some(hit.file) == path.text_field("text"@)
                &&& hit.line == data.unsigned_field("line_number"@)->0
                &&& hit.line_text.is_prefix_of(line)
                &&& forall|k: int|
                    hit.line_text.len() <= k < line.len() ==> #[trigger] line[k] == '\r'
                        || line[k] == '\n'
            },
            _ => false,
        },
{
    if text.text_field("text"@) is Some {
        lemma_line_end_cut(text.text_field("text"@)->0);
    }
}

proof fn lemma_line_end_cut(s: Seq<char>)
    ensures
        without_line_end(s).is_prefix_of(s),
        forall|k: int|
            without_line_end(s).len() <= k < s.len() ==> #[trigger] s[k] == '\r' || s[k] == '\n',
    decreases s.len(),
{
    if s.len() > 0 && (s.last() == '\r' || s.last() == '\n') {
        lemma_line_end_cut(s.drop_last());
        let kept = without_line_end(s.drop_last());
        assert(kept =~= s.drop_last().take(kept.len() as int));
        assert(kept =~= s.take(kept.len() as int));
        assert forall|k: int| kept.len() <= k < s.len() implies #[trigger] s[k] == '\r' || s[k]
            == '\n' by {
            if k < s.len() - 1 {
                assert(s.drop_last()[k] == s[k]);
            }
        }
    } else {
        assert(s =~= s.take(s.len() as int));
    }
}

/// The index is searched where it covers the root and is ready, files one by one where it is not
/// ready, and the search program where the index does not cover the root.
pub proof fn index_is_searched_where_it_is_ready(index: Option<bool>)
    ensures
        search_way(true, Some(true)) == SearchWay::Index,
        index != Some(true) ==> search_way(true, index) == SearchWay::Files,
        search_way(false, index) == SearchWay::Program,
{
}

/// Every match in a file that can be read is found, and the files are searched in their order.
pub proof fn files_are_searched_one_by_one(
    files: Seq<Source>,
    path: Seq<char>,
    content: Seq<char>,
    pattern: Seq<char>,
    ignore_case: bool,
)
    ensures
        files_hits(files.push(Source { path, content: None }), pattern, ignore_case) == files_hits(
            files,
            pattern,
            ignore_case,
        ),
        ({
            let parts = regex_parts(
                content,
                pattern,
                ignore_case,
                10485760int,
                true,
                usize::BITS as int,
            );
            files_hits(
                files.push(Source { path, content: Some(content) }),
                pattern,
                ignore_case,
            ) == files_hits(files, pattern, ignore_case) + first_hits(
                path,
                content,
                parts,
                parts.len() as int,
            )
        }),
        readable_count(files.push(Source { path, content: None })) == readable_count(files),
        readable_count(files.push(Source { path, content: Some(content) })) == readable_count(files)
            + 1,
{
    let without = files.push(Source { path, content: None });
    let with = files.push(Source { path, content: Some(content) });
    assert(without.drop_last() =~= files);
    assert(with.drop_last() =~= files);
    assert(files_hits(without, pattern, ignore_case) =~= files_hits(files, pattern, ignore_case));
}

/// A line of more than two hundred characters is shown up to there.
pub proof fn long_lines_are_cut(s: Seq<char>)
    ensures
        s.len() <= 200 ==> shown_line(s) == s,
        s.len() > 200 ==> shown_line(s) == s.take(200) + "…"@,
{
}

/// A match is shown by its line, counted as it was told, and the text of it; of a file with more than
/// ten matches five are shown and the others are counted.
pub proof fn matches_are_shown_under_their_file(
    file: Seq<char>,
    hits: Seq<LineHit>,
    list: Seq<int>,
    n: int,
)
    ensures
        0 < n <= list.len() ==> shown_hits(hits, list, n) == shown_hits(hits, list, n - 1) + (
        "\n"@ + decimal(hits[list[n - 1]].line as nat) + ": "@ + shown_line(
            hits[list[n - 1]].line_text,
        )),
        list.len() <= 10 ==> shown_file(file, hits, list) == file + shown_hits(
            hits,
            list,
            list.len() as int,
        ),
        list.len() > 10 ==> shown_file(file, hits, list) == file + shown_hits(hits, list, 5) + (
        "\n... and "@ + decimal((list.len() - 5) as nat) + " more matches"@),
{
}

/// The matches are shown file by file, and behind them how many there are, in how many files, and what
/// was searched.
pub proof fn searches_are_shown_with_their_counts(result: Grepped, root: Seq<char>)
    ensures
        ({
            let paths = result.matches.map_values(|h: LineHit| shown_path(h.file, root));
            let sections = keys_of(paths).map_values(
                |file: Seq<char>|
                    shown_file(file, result.matches, under(paths, file, paths.len() as int)),
            );
            let told = match result.index_status {
                IndexStatus::Ready => "ready"@,
                IndexStatus::Building => "building"@,
                IndexStatus::Fallback => "fallback"@,
            };
            let footer = "Found "@ + decimal(result.total_matches as nat) + " match(es) across "@
                + decimal(result.files_with_matches as nat) + " file(s). [index: "@ + (told + "]"@);
            &&& sections.len() == 0 ==> grep_text(result, root) == footer
            &&& sections.len() > 0 ==> grep_text(result, root) == joined(sections, "\n\n"@)
                + "\n\n"@ + footer
        }),
{
}

/// What a search program reports is told as it stands, up to as many matches as were asked for: all
/// matches and the files that have one are counted, and whether some are left out is told.
pub proof fn reports_of_a_program_are_told(lines: Seq<Option<Json>>, max: int)
    requires
        max >= 0,
    ensures
        match program_result(lines, max) {
            None => reported(lines, lines.len() as int) is None,
            Some(r) => reported(lines, lines.len() as int) is Some && ({
                let hits = reported(lines, lines.len() as int)->0;
                &&& r.total_matches == hits.len()
                &&& hits.len() <= max ==> r.matches == hits && !r.truncated
                &&& hits.len() > max ==> r.matches == hits.take(max) && r.truncated
                &&& r.files_with_matches == distinct(
                    hits.map_values(|h: LineHit| rendered(path_components(h.file))),
                ).len()
                &&& r.index_status is Fallback
            }),
        },
{
}

} // verus!
