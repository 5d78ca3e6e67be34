//! The difference between two texts, line by line.
use vstd::prelude::*;

use crate::text::{
    chars_of, decimal, decimal_text, same, split_chars, split_on, text3, text4, text5, texts,
};

verus! {

/// How many lines two texts have in common at their start.
pub open spec fn common_start(a: Seq<Seq<char>>, b: Seq<Seq<char>>) -> nat
    decreases a.len(),
{
    if a.len() > 0 && b.len() > 0 && a[0] == b[0] {
        1 + common_start(a.drop_first(), b.drop_first())
    } else {
        0
    }
}

/// How many lines two texts have in common at their end.
pub open spec fn common_end(a: Seq<Seq<char>>, b: Seq<Seq<char>>) -> nat
    decreases a.len(),
{
    if a.len() > 0 && b.len() > 0 && a.last() == b.last() {
        1 + common_end(a.drop_last(), b.drop_last())
    } else {
        0
    }
}

/// The lines of a text that another has changed, and those that it has in their place.
pub ghost struct Hunk {
    /// How many lines stand before them.
    pub before: nat,
    pub removed: Seq<Seq<char>>,
    pub added: Seq<Seq<char>>,
}

/// What lies between the lines that two texts have in common at their start and at their end.
pub open spec fn hunk_of(a: Seq<Seq<char>>, b: Seq<Seq<char>>) -> Hunk {
    let p = common_start(a, b) as int;
    let q = common_end(a.skip(p), b.skip(p)) as int;
    Hunk {
        before: p as nat,
        removed: a.subrange(p, a.len() - q),
        added: b.subrange(p, b.len() - q),
    }
}

/// Lines behind a mark.
pub open spec fn marked(mark: Seq<char>, lines: Seq<Seq<char>>) -> Seq<char>
    decreases lines.len(),
{
    if lines.len() == 0 {
        Seq::empty()
    } else {
        marked(mark, lines.drop_last()) + mark + lines.last() + "\n"@
    }
}

/// Where lines stand: the number of the first, or of the line before where there are none, and
/// how many there are.
pub open spec fn line_range(before: nat, count: nat) -> Seq<char> {
    decimal(
        if count == 0 {
            before
        } else {
            before + 1
        },
    ) + ","@ + decimal(count)
}

/// The difference between an old and a new text of a file: nothing where they are the same, and
/// else the lines that are gone and those that came in their place.
pub open spec fn difference(path: Seq<char>, old_text: Seq<char>, new_text: Seq<char>) -> Seq<char> {
    if old_text == new_text {
        Seq::empty()
    } else {
        let h = hunk_of(split_on(old_text, '\n'), split_on(new_text, '\n'));
        "--- a/"@ + path + "\n+++ b/"@ + path + "\n"@ + ("@@ -"@ + line_range(
            h.before,
            h.removed.len(),
        ) + " +"@ + line_range(h.before, h.added.len()) + " @@\n"@) + marked("-"@, h.removed)
            + marked("+"@, h.added)
    }
}

fn count_start(a: &Vec<String>, b: &Vec<String>) -> (r: usize)
    ensures
        r == common_start(texts(a@), texts(b@)),
        r <= a@.len() && r <= b@.len(),
{
    let ghost x = texts(a@);
    let ghost y = texts(b@);
    let mut i: usize = 0;
    assert(x.skip(0) =~= x && y.skip(0) =~= y);
    while i < a.len() && i < b.len()
        invariant
            i <= a.len() && i <= b.len(),
            x == texts(a@),
            y == texts(b@),
            common_start(x, y) == i + common_start(x.skip(i as int), y.skip(i as int)),
        decreases a.len() - i,
    {
        assert(x.skip(i as int).drop_first() =~= x.skip(i + 1));
        assert(y.skip(i as int).drop_first() =~= y.skip(i + 1));
        if !same(a[i].as_str(), b[i].as_str()) {
            return i;
        }
        i = i + 1;
    }
    i
}

fn count_end(a: &Vec<String>, b: &Vec<String>, from: usize) -> (r: usize)
    requires
        from <= a@.len() && from <= b@.len(),
    ensures
        r == common_end(texts(a@).skip(from as int), texts(b@).skip(from as int)),
        r <= a@.len() - from && r <= b@.len() - from,
{
    let ghost x = texts(a@).skip(from as int);
    let ghost y = texts(b@).skip(from as int);
    let mut i: usize = 0;
    assert(x.take(x.len() as int) =~= x && y.take(y.len() as int) =~= y);
    while i < a.len() - from && i < b.len() - from
        invariant
            from <= a.len() && from <= b.len(),
            i <= a.len() - from && i <= b.len() - from,
            x == texts(a@).skip(from as int),
            y == texts(b@).skip(from as int),
            common_end(x, y) == i + common_end(x.take(x.len() - i), y.take(y.len() - i)),
        decreases a.len() - from - i,
    {
        let ghost u = x.take(x.len() - i);
        let ghost v = y.take(y.len() - i);
        assert(u.drop_last() =~= x.take(x.len() - i - 1));
        assert(v.drop_last() =~= y.take(y.len() - i - 1));
        assert(u.last() == a@[a@.len() - 1 - i]@);
        assert(v.last() == b@[b@.len() - 1 - i]@);
        if !same(a[a.len() - 1 - i].as_str(), b[b.len() - 1 - i].as_str()) {
            return i;
        }
        i = i + 1;
    }
    i
}

fn mark_lines(mark: &str, lines: &Vec<String>, from: usize, upto: usize) -> (r: String)
    requires
        from <= upto <= lines@.len(),
    ensures
        r@ == marked(mark@, texts(lines@).subrange(from as int, upto as int)),
{
    let ghost all = texts(lines@);
    let mut out = String::new();
    let mut i: usize = from;
    assert(all.subrange(from as int, from as int) =~= Seq::empty());
    while i < upto
        invariant
            from <= i <= upto <= lines@.len(),
            all == texts(lines@),
            out@ == marked(mark@, all.subrange(from as int, i as int)),
        decreases upto - i,
    {
        assert(all.subrange(from as int, i + 1).drop_last() =~= all.subrange(from as int, i as int));
        out = text4(out.as_str(), mark, lines[i].as_str(), "\n");
        i = i + 1;
    }
    out
}

fn range_text(before: usize, count: usize) -> (r: String)
    requires
        before + count <= usize::MAX,
    ensures
        r@ == line_range(before as nat, count as nat),
{
    let first: u64 = if count == 0 {
        before as u64
    } else {
        before as u64 + 1
    };
    text3(decimal_text(first).as_str(), ",", decimal_text(count as u64).as_str())
}

/// The difference between an old and a new text of a file.
pub fn dry_run_diff(path: &str, old_text: &str, new_text: &str) -> (r: String)
    ensures
        r@ == difference(path@, old_text@, new_text@),
{
    if same(old_text, new_text) {
        return String::new();
    }
    let a = split_chars(chars_of(old_text).as_slice(), '\n');
    let b = split_chars(chars_of(new_text).as_slice(), '\n');
    let p = count_start(&a, &b);
    let q = count_end(&a, &b, p);
    let removed = mark_lines("-", &a, p, a.len() - q);
    let added = mark_lines("+", &b, p, b.len() - q);
    let files = text5("--- a/", path, "\n+++ b/", path, "\n");
    let place = text5(
        "@@ -",
        range_text(p, a.len() - q - p).as_str(),
        " +",
        range_text(p, b.len() - q - p).as_str(),
        " @@\n",
    );
    text4(files.as_str(), place.as_str(), removed.as_str(), added.as_str())
}

proof fn lemma_common_start(a: Seq<Seq<char>>, b: Seq<Seq<char>>)
    ensures
        common_start(a, b) <= a.len(),
        common_start(a, b) <= b.len(),
        a.take(common_start(a, b) as int) == b.take(common_start(a, b) as int),
    decreases a.len(),
{
    let n = common_start(a, b) as int;
    if a.len() > 0 && b.len() > 0 && a[0] == b[0] {
        let x = a.drop_first();
        let y = b.drop_first();
        lemma_common_start(x, y);
        assert(a.take(n) =~= seq![a[0]] + x.take(n - 1));
        assert(b.take(n) =~= seq![b[0]] + y.take(n - 1));
    } else {
        assert(a.take(0) =~= b.take(0));
    }
}

proof fn lemma_common_end(a: Seq<Seq<char>>, b: Seq<Seq<char>>)
    ensures
        common_end(a, b) <= a.len(),
        common_end(a, b) <= b.len(),
        a.skip(a.len() - common_end(a, b)) == b.skip(b.len() - common_end(a, b)),
    decreases a.len(),
{
    let n = common_end(a, b) as int;
    if a.len() > 0 && b.len() > 0 && a.last() == b.last() {
        let x = a.drop_last();
        let y = b.drop_last();
        lemma_common_end(x, y);
        assert(a.skip(a.len() - n) =~= x.skip(x.len() - (n - 1)).push(a.last()));
        assert(b.skip(b.len() - n) =~= y.skip(y.len() - (n - 1)).push(b.last()));
    } else {
        assert(a.skip(a.len() as int) =~= b.skip(b.len() as int));
    }
}

/// A difference tells the whole change: the new lines are the old ones with what was added in the
/// place of what was removed.
pub proof fn difference_tells_the_change(a: Seq<Seq<char>>, b: Seq<Seq<char>>)
    ensures
        ({
            let h = hunk_of(a, b);
            &&& h.before + h.removed.len() <= a.len()
            &&& a.subrange(h.before as int, (h.before + h.removed.len()) as int) == h.removed
            &&& b == a.take(h.before as int) + h.added + a.skip(
                (h.before + h.removed.len()) as int,
            )
        }),
{
    let p = common_start(a, b) as int;
    lemma_common_start(a, b);
    let x = a.skip(p);
    let y = b.skip(p);
    lemma_common_end(x, y);
    let q = common_end(x, y) as int;
    assert(x.skip(x.len() - q) =~= a.skip(a.len() - q));
    assert(y.skip(y.len() - q) =~= b.skip(b.len() - q));
    assert(b =~= b.take(p) + b.subrange(p, b.len() - q) + b.skip(b.len() - q));
}

proof fn lemma_common_start_ends(a: Seq<Seq<char>>, b: Seq<Seq<char>>)
    ensures
        common_start(a, b) <= a.len(),
        common_start(a, b) <= b.len(),
        common_start(a, b) < a.len() && common_start(a, b) < b.len() ==> a[common_start(
            a,
            b,
        ) as int] != b[common_start(a, b) as int],
    decreases a.len(),
{
    if a.len() > 0 && b.len() > 0 && a[0] == b[0] {
        lemma_common_start_ends(a.drop_first(), b.drop_first());
    }
}

/// A difference starts with the first line that is not the same in both texts, and tells nothing
/// where the texts are the same.
pub proof fn differences_start_where_the_texts_part(a: Seq<Seq<char>>, b: Seq<Seq<char>>)
    ensures
        ({
            let h = hunk_of(a, b);
            &&& h.removed.len() > 0 && h.added.len() > 0 ==> h.removed[0] != h.added[0]
            &&& h.removed.len() > 0 && h.added.len() > 0 ==> h.removed.last() != h.added.last()
        }),
        forall|path: Seq<char>, s: Seq<char>| #[trigger] difference(path, s, s).len() == 0,
{
    let p = common_start(a, b) as int;
    lemma_common_start_ends(a, b);
    let x = a.skip(p);
    let y = b.skip(p);
    let q = common_end(x, y) as int;
    lemma_common_end_parts(x, y);
    let h = hunk_of(a, b);
    if h.removed.len() > 0 && h.added.len() > 0 {
        assert(h.removed[0] == a[p]);
        assert(h.added[0] == b[p]);
        assert(h.removed.last() == x[x.len() - q - 1]);
        assert(h.added.last() == y[y.len() - q - 1]);
    }
}

proof fn lemma_common_end_parts(a: Seq<Seq<char>>, b: Seq<Seq<char>>)
    ensures
        common_end(a, b) <= a.len(),
        common_end(a, b) <= b.len(),
        common_end(a, b) < a.len() && common_end(a, b) < b.len() ==> a[a.len() - common_end(a, b)
            - 1] != b[b.len() - common_end(a, b) - 1],
    decreases a.len(),
{
    if a.len() > 0 && b.len() > 0 && a.last() == b.last() {
        lemma_common_end_parts(a.drop_last(), b.drop_last());
    }
}

/// A difference names its file and the place of the lines that it tells, counted from one, and
/// tells the lines that are gone behind a minus sign and those that came behind a plus sign.
pub proof fn differences_are_written_line_by_line(
    path: Seq<char>,
    old_text: Seq<char>,
    new_text: Seq<char>,
)
    requires
        old_text != new_text,
    ensures
        ({
            let h = hunk_of(split_on(old_text, '\n'), split_on(new_text, '\n'));
            let r = difference(path, old_text, new_text);
            let from = if h.removed.len() == 0 {
                decimal(h.before)
            } else {
                decimal(h.before + 1)
            };
            let to = if h.added.len() == 0 {
                decimal(h.before)
            } else {
                decimal(h.before + 1)
            };
            r == "--- a/"@ + path + "\n+++ b/"@ + path + "\n"@ + ("@@ -"@ + (from + ","@ + decimal(
                h.removed.len(),
            )) + " +"@ + (to + ","@ + decimal(h.added.len())) + " @@\n"@) + marked(
                "-"@,
                h.removed,
            ) + marked("+"@, h.added)
        }),
        forall|mark: Seq<char>, lines: Seq<Seq<char>>, line: Seq<char>| #[trigger]
            marked(mark, lines.push(line)) == marked(mark, lines) + mark + line + "\n"@,
{
    assert forall|mark: Seq<char>, lines: Seq<Seq<char>>, line: Seq<char>| #[trigger]
        marked(mark, lines.push(line)) == marked(mark, lines) + mark + line + "\n"@ by {
        assert(lines.push(line).drop_last() =~= lines);
    }
}

} // verus!
