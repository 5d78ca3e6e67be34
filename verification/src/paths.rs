//! Paths as text with `/` between their components.
use vstd::prelude::*;
use vstd::slice::slice_subrange;

use crate::text::{
    chars_of, find_char_from, lemma_char_found, lemma_split_parts, less, owned, same, split_chars,
    split_on, string_of, text_lt, texts,
};

verus! {

/// A component of a path.
pub enum Component {
    RootDir,
    CurDir,
    ParentDir,
    Normal(String),
}

/// The mathematical component of a path.
pub ghost enum Comp {
    Root,
    Cur,
    Parent,
    Name(Seq<char>),
}

impl View for Component {
    type V = Comp;

    open spec fn view(&self) -> Comp {
        match *self {
            Component::RootDir => Comp::Root,
            Component::CurDir => Comp::Cur,
            Component::ParentDir => Comp::Parent,
            Component::Normal(s) => Comp::Name(s@),
        }
    }
}

/// The mathematical components of a list.
pub open spec fn comps(v: Seq<Component>) -> Seq<Comp> {
    v.map_values(|c: Component| c@)
}

/// Whether a path starts at the root.
pub open spec fn absolute(p: Seq<char>) -> bool {
    p.len() > 0 && p[0] == '/'
}

/// The components that the pieces from `from` on stand for. Empty pieces and `.` are
/// dropped, but for a `.` that a relative path starts with.
pub open spec fn pieces_components(pieces: Seq<Seq<char>>, from: int, rooted: bool) -> Seq<Comp>
    decreases pieces.len() - from,
{
    if from < 0 || from >= pieces.len() {
        Seq::empty()
    } else {
        let rest = pieces_components(pieces, from + 1, rooted);
        let p = pieces[from];
        if p.len() == 0 {
            rest
        } else if p == "."@ {
            if from == 0 && !rooted {
                seq![Comp::Cur] + rest
            } else {
                rest
            }
        } else if p == ".."@ {
            seq![Comp::Parent] + rest
        } else {
            seq![Comp::Name(p)] + rest
        }
    }
}

/// The components of a path.
pub open spec fn path_components(p: Seq<char>) -> Seq<Comp> {
    let tail = pieces_components(split_on(p, '/'), 0, absolute(p));
    if absolute(p) {
        seq![Comp::Root] + tail
    } else {
        tail
    }
}

/// Whether a path starts at the root.
pub fn is_absolute(p: &str) -> (r: bool)
    ensures
        r == absolute(p@),
{
    let c = chars_of(p);
    c.len() > 0 && c[0] == '/'
}

/// The components of a path.
pub fn components(p: &str) -> (r: Vec<Component>)
    ensures
        comps(r@) == path_components(p@),
{
    let c = chars_of(p);
    let rooted = is_absolute(p);
    let pieces = split_chars(c.as_slice(), '/');
    let ghost all = texts(pieces@);
    let mut out: Vec<Component> = Vec::new();
    if rooted {
        out.push(Component::RootDir);
    }
    proof {
        let head = comps(out@);
        let tail = pieces_components(all, 0, rooted);
        if rooted {
            assert(head =~= seq![Comp::Root]);
        } else {
            assert(head + tail =~= tail);
        }
    }
    let mut i: usize = 0;
    while i < pieces.len()
        invariant
            i <= pieces.len(),
            all == texts(pieces@),
            comps(out@) + pieces_components(all, i as int, rooted) == path_components(p@),
        decreases pieces.len() - i,
    {
        let piece = pieces[i].as_str();
        assert(all[i as int] == piece@);
        let ghost before = comps(out@);
        let ghost rest = pieces_components(all, i + 1, rooted);
        proof {
            reveal_strlit(".");
            reveal_strlit("..");
        }
        if piece.is_empty() {
        } else if same(piece, ".") {
            if i == 0 && !rooted {
                out.push(Component::CurDir);
                assert(comps(out@) =~= before.push(Comp::Cur));
                assert(before + (seq![Comp::Cur] + rest) =~= before.push(Comp::Cur) + rest);
            }
        } else if same(piece, "..") {
            out.push(Component::ParentDir);
            assert(comps(out@) =~= before.push(Comp::Parent));
            assert(before + (seq![Comp::Parent] + rest) =~= before.push(Comp::Parent) + rest);
        } else {
            out.push(Component::Normal(owned(piece)));
            assert(comps(out@) =~= before.push(Comp::Name(piece@)));
            assert(before + (seq![Comp::Name(piece@)] + rest) =~= before.push(Comp::Name(piece@))
                + rest);
        }
        i = i + 1;
    }
    assert(comps(out@) + Seq::<Comp>::empty() =~= comps(out@));
    out
}

/// The text of a component.
pub open spec fn comp_text(c: Comp) -> Seq<char> {
    match c {
        Comp::Root => "/"@,
        Comp::Cur => "."@,
        Comp::Parent => ".."@,
        Comp::Name(s) => s,
    }
}

/// The path that `list` makes: its components with one `/` between two of them.
pub open spec fn rendered(list: Seq<Comp>) -> Seq<char>
    decreases list.len(),
{
    if list.len() == 0 {
        Seq::empty()
    } else if list.len() == 1 {
        comp_text(list[0])
    } else if list.len() == 2 && list[0] is Root {
        "/"@ + comp_text(list[1])
    } else {
        rendered(list.drop_last()) + "/"@ + comp_text(list.last())
    }
}

/// The path that a list of components makes.
pub fn render(list: &Vec<Component>) -> (r: String)
    ensures
        r@ == rendered(comps(list@)),
{
    let mut out = String::new();
    let mut i: usize = 0;
    let ghost all = comps(list@);
    assert(all.take(0) =~= Seq::<Comp>::empty());
    while i < list.len()
        invariant
            i <= list.len(),
            all == comps(list@),
            out@ == rendered(all.take(i as int)),
        decreases list.len() - i,
    {
        proof {
            assert(all.take(i + 1).drop_last() =~= all.take(i as int));
            assert(all.take(i + 1).last() == all[i as int]);
            assert(all[i as int] == list@[i as int]@);
            assert(all[0] == list@[0]@);
        }
        let after_root = i == 1 && match &list[0] {
            Component::RootDir => true,
            _ => false,
        };
        if i > 0 && !after_root {
            out.append("/");
        }
        match &list[i] {
            Component::RootDir => { out.append("/") },
            Component::CurDir => { out.append(".") },
            Component::ParentDir => { out.append("..") },
            Component::Normal(s) => { out.append(s.as_str()) },
        }
        assert(out@ =~= rendered(all.take(i + 1)));
        i = i + 1;
    }
    assert(all.take(list@.len() as int) =~= all);
    out
}

/// A stack of components after one more: `.` is dropped, and `..` takes the last
/// component off, unless there is none or only the root.
pub open spec fn normal_step(stack: Seq<Comp>, c: Comp) -> Seq<Comp> {
    match c {
        Comp::Cur => stack,
        Comp::Parent => if stack.len() > 0 && !(stack.last() is Root) {
            stack.drop_last()
        } else {
            stack.push(Comp::Parent)
        },
        _ => stack.push(c),
    }
}

/// The stack of components that remains of `list`.
pub open spec fn normalized(list: Seq<Comp>) -> Seq<Comp>
    decreases list.len(),
{
    if list.len() == 0 {
        Seq::empty()
    } else {
        normal_step(normalized(list.drop_last()), list.last())
    }
}

/// The components of a path without `.`, and with `..` taken as a step up wherever
/// there is something to step up from.
pub fn normalize_components(p: &str) -> (r: Vec<Component>)
    ensures
        comps(r@) == normalized(path_components(p@)),
{
    let list = components(p);
    let ghost all = comps(list@);
    let mut out: Vec<Component> = Vec::new();
    let mut i: usize = 0;
    assert(all.take(0) =~= Seq::<Comp>::empty());
    assert(comps(out@) =~= Seq::<Comp>::empty());
    while i < list.len()
        invariant
            i <= list.len(),
            all == comps(list@),
            comps(out@) == normalized(all.take(i as int)),
        decreases list.len() - i,
    {
        let ghost before = comps(out@);
        proof {
            assert(all.take(i + 1).drop_last() =~= all.take(i as int));
            assert(all.take(i + 1).last() == all[i as int]);
            assert(all[i as int] == list@[i as int]@);
        }
        match &list[i] {
            Component::CurDir => {},
            Component::ParentDir => {
                let pop = out.len() > 0 && match &out[out.len() - 1] {
                    Component::RootDir => false,
                    _ => true,
                };
                assert(out@.len() > 0 ==> before.last() == out@.last()@);
                if pop {
                    out.pop();
                    assert(comps(out@) =~= before.drop_last());
                } else {
                    out.push(Component::ParentDir);
                    assert(comps(out@) =~= before.push(Comp::Parent));
                }
            },
            Component::RootDir => {
                out.push(Component::RootDir);
                assert(comps(out@) =~= before.push(Comp::Root));
            },
            Component::Normal(s) => {
                out.push(Component::Normal(s.clone()));
                assert(comps(out@) =~= before.push(Comp::Name(s@)));
            },
        }
        i = i + 1;
    }
    assert(all.take(list@.len() as int) =~= all);
    out
}

/// Whether `list` holds a `..`.
pub fn has_parent(list: &Vec<Component>) -> (r: bool)
    ensures
        r == comps(list@).contains(Comp::Parent),
{
    let ghost all = comps(list@);
    let mut i: usize = 0;
    while i < list.len()
        invariant
            i <= list.len(),
            all == comps(list@),
            forall|k: int| 0 <= k < i ==> all[k] != Comp::Parent,
        decreases list.len() - i,
    {
        assert(all[i as int] == list@[i as int]@);
        match &list[i] {
            Component::ParentDir => {
                return true;
            },
            _ => {},
        }
        i = i + 1;
    }
    false
}

/// The path of `p` seen from `base`: `p` itself where it is absolute.
pub open spec fn path_join(base: Seq<char>, p: Seq<char>) -> Seq<char> {
    if absolute(p) {
        p
    } else if base.len() == 0 || base.last() == '/' {
        base + p
    } else {
        base + "/"@ + p
    }
}

/// The path of `p` seen from `base`.
pub fn join_path(base: &str, p: &str) -> (r: String)
    ensures
        r@ == path_join(base@, p@),
{
    if is_absolute(p) {
        return owned(p);
    }
    let b = chars_of(base);
    let mut out = owned(base);
    if b.len() > 0 && b[b.len() - 1] != '/' {
        out.append("/");
    }
    out.append(p);
    out
}

/// Whether the components of a path start with those of `base`.
pub open spec fn path_under(p: Seq<char>, base: Seq<char>) -> bool {
    path_components(base).is_prefix_of(path_components(p))
}

/// `p` seen from `base`, or `p` where it does not lie under `base`.
pub open spec fn path_relative(p: Seq<char>, base: Seq<char>) -> Seq<char> {
    if path_under(p, base) {
        rendered(path_components(p).skip(path_components(base).len() as int))
    } else {
        p
    }
}

fn same_component(a: &Component, b: &Component) -> (r: bool)
    ensures
        r == (a@ == b@),
{
    match (a, b) {
        (Component::RootDir, Component::RootDir) => true,
        (Component::CurDir, Component::CurDir) => true,
        (Component::ParentDir, Component::ParentDir) => true,
        (Component::Normal(x), Component::Normal(y)) => same(x.as_str(), y.as_str()),
        _ => false,
    }
}

fn components_start_with(a: &Vec<Component>, b: &Vec<Component>) -> (r: bool)
    ensures
        r == comps(b@).is_prefix_of(comps(a@)),
{
    if b.len() > a.len() {
        return false;
    }
    let ghost x = comps(a@);
    let ghost y = comps(b@);
    let mut i: usize = 0;
    while i < b.len()
        invariant
            i <= b.len() <= a.len(),
            x == comps(a@),
            y == comps(b@),
            forall|k: int| 0 <= k < i ==> x[k] == y[k],
        decreases b.len() - i,
    {
        assert(x[i as int] == a@[i as int]@ && y[i as int] == b@[i as int]@);
        if !same_component(&a[i], &b[i]) {
            assert(x.take(y.len() as int)[i as int] != y[i as int]);
            return false;
        }
        i = i + 1;
    }
    assert(y =~= x.take(y.len() as int));
    true
}

/// Whether a path lies under `base` or is `base`.
pub fn starts_with_path(p: &str, base: &str) -> (r: bool)
    ensures
        r == path_under(p@, base@),
{
    let a = components(p);
    let b = components(base);
    components_start_with(&a, &b)
}

/// `p` seen from `base`, or `p` where it does not lie under `base`.
pub fn relative_to(p: &str, base: &str) -> (r: String)
    ensures
        r@ == path_relative(p@, base@),
{
    let a = components(p);
    let b = components(base);
    if !components_start_with(&a, &b) {
        return owned(p);
    }
    let ghost x = comps(a@);
    let ghost y = comps(b@);
    let mut tail: Vec<Component> = Vec::new();
    let mut i: usize = b.len();
    assert(comps(tail@) =~= x.subrange(b@.len() as int, b@.len() as int));
    while i < a.len()
        invariant
            b.len() <= i <= a.len(),
            x == comps(a@),
            comps(tail@) == x.subrange(b@.len() as int, i as int),
        decreases a.len() - i,
    {
        let ghost before = comps(tail@);
        let c = match &a[i] {
            Component::RootDir => Component::RootDir,
            Component::CurDir => Component::CurDir,
            Component::ParentDir => Component::ParentDir,
            Component::Normal(s) => Component::Normal(s.clone()),
        };
        proof {
            assert(c@ == x[i as int]);
        }
        tail.push(c);
        assert(comps(tail@) =~= before.push(x[i as int]));
        assert(comps(tail@) =~= x.subrange(b@.len() as int, i + 1));
        i = i + 1;
    }
    assert(comps(tail@) =~= x.skip(y.len() as int));
    render(&tail)
}

/// The name of the file that a path ends in.
pub open spec fn name_of(p: Seq<char>) -> Option<Seq<char>> {
    let c = path_components(p);
    if c.len() > 0 {
        match c.last() {
            Comp::Name(s) => Some(s),
            _ => None,
        }
    } else {
        None
    }
}

/// The name of the file that a path ends in.
pub fn file_name(p: &str) -> (r: Option<String>)
    ensures
        match r {
            Some(s) => name_of(p@) == Some(s@),
            None => name_of(p@) is None,
        },
{
    let list = components(p);
    let n: usize = list.len();
    if n == 0 {
        return None;
    }
    assert(comps(list@).last() == list@.last()@);
    match &list[n - 1] {
        Component::Normal(s) => Some(s.clone()),
        _ => None,
    }
}

/// The path one step up; `None` of the root and of the empty path.
pub open spec fn path_parent(p: Seq<char>) -> Option<Seq<char>> {
    let c = path_components(p);
    if c.len() == 0 || c.last() is Root {
        None
    } else {
        Some(rendered(c.drop_last()))
    }
}

/// The path one step up.
pub fn parent(p: &str) -> (r: Option<String>)
    ensures
        match r {
            Some(s) => path_parent(p@) == Some(s@),
            None => path_parent(p@) is None,
        },
{
    let mut list = components(p);
    let ghost all = comps(list@);
    let n: usize = list.len();
    if n == 0 {
        return None;
    }
    assert(all.last() == list@.last()@);
    match &list[n - 1] {
        Component::RootDir => {
            return None;
        },
        _ => {},
    }
    list.pop();
    assert(comps(list@) =~= all.drop_last());
    Some(render(&list))
}

/// The last index below `upto` that holds `c`.
pub open spec fn find_last_char(s: Seq<char>, c: char, upto: int) -> Option<int>
    decreases upto,
{
    if upto <= 0 || upto > s.len() {
        None
    } else if s[upto - 1] == c {
        Some(upto - 1)
    } else {
        find_last_char(s, c, upto - 1)
    }
}

/// The last index below `upto` that holds `c`.
pub fn rfind_char(s: &[char], c: char, upto: usize) -> (r: Option<usize>)
    requires
        upto <= s.len(),
    ensures
        match r {
            Some(i) => find_last_char(s@, c, upto as int) == Some(i as int) && i < upto
                && s@[i as int] == c,
            None => find_last_char(s@, c, upto as int) is None,
        },
{
    let mut n: usize = upto;
    while n > 0
        invariant
            n <= upto <= s.len(),
            find_last_char(s@, c, upto as int) == find_last_char(s@, c, n as int),
        decreases n,
    {
        if s[n - 1] == c {
            return Some(n - 1);
        }
        n = n - 1;
    }
    None
}

/// The part of a file name behind its last dot, where a dot stands anywhere but at
/// the start.
pub open spec fn name_extension(name: Seq<char>) -> Option<Seq<char>> {
    match find_last_char(name, '.', name.len() as int) {
        Some(i) => if i > 0 {
            Some(name.skip(i + 1))
        } else {
            None
        },
        None => None,
    }
}

/// A file name up to its last dot, where a dot stands anywhere but at the start.
pub open spec fn name_stem(name: Seq<char>) -> Seq<char> {
    match find_last_char(name, '.', name.len() as int) {
        Some(i) => if i > 0 {
            name.take(i)
        } else {
            name
        },
        None => name,
    }
}

/// A file name up to its last dot, where a dot stands anywhere but at the start.
pub fn file_stem(name: &str) -> (r: String)
    ensures
        r@ == name_stem(name@),
{
    let c = chars_of(name);
    match rfind_char(c.as_slice(), '.', c.len()) {
        Some(i) => {
            if i > 0 {
                string_of(slice_subrange(c.as_slice(), 0, i))
            } else {
                owned(name)
            }
        },
        None => owned(name),
    }
}

/// The path with another extension on its file name; the path itself where it ends in
/// no file name.
pub open spec fn path_with_extension(p: Seq<char>, ext: Seq<char>) -> Seq<char> {
    match name_of(p) {
        Some(n) => rendered(
            path_components(p).drop_last().push(Comp::Name(name_stem(n) + "."@ + ext)),
        ),
        None => p,
    }
}

/// The path with another extension on its file name.
pub fn with_extension(p: &str, ext: &str) -> (r: String)
    ensures
        r@ == path_with_extension(p@, ext@),
{
    let mut list = components(p);
    let ghost all = comps(list@);
    let n: usize = list.len();
    if n == 0 {
        return owned(p);
    }
    assert(all.last() == list@.last()@);
    let name = match &list[n - 1] {
        Component::Normal(s) => s.clone(),
        _ => {
            return owned(p);
        },
    };
    let c = chars_of(name.as_str());
    let end: usize = match rfind_char(c.as_slice(), '.', c.len()) {
        Some(i) => if i > 0 {
            i
        } else {
            c.len()
        },
        None => c.len(),
    };
    let stem = slice_subrange(c.as_slice(), 0, end);
    assert(stem@ =~= name_stem(name@));
    let mut new_name = string_of(stem);
    new_name.append(".");
    new_name.append(ext);
    list.pop();
    assert(comps(list@) =~= all.drop_last());
    let ghost before = comps(list@);
    let ghost added = Comp::Name(new_name@);
    list.push(Component::Normal(new_name));
    assert(comps(list@) =~= before.push(added));
    render(&list)
}

/// The extension of a path.
pub open spec fn extension_of(p: Seq<char>) -> Option<Seq<char>> {
    match name_of(p) {
        Some(n) => name_extension(n),
        None => None,
    }
}

/// The extension of a path.
pub fn extension(p: &str) -> (r: Option<String>)
    ensures
        match r {
            Some(s) => extension_of(p@) == Some(s@),
            None => extension_of(p@) is None,
        },
{
    match file_name(p) {
        Some(name) => {
            let c = chars_of(name.as_str());
            match rfind_char(c.as_slice(), '.', c.len()) {
                Some(i) => {
                    if i > 0 {
                        let tail = slice_subrange(c.as_slice(), i + 1, c.len());
                        assert(tail@ =~= name@.skip(i + 1));
                        Some(string_of(tail))
                    } else {
                        None
                    }
                },
                None => None,
            }
        },
        None => None,
    }
}

/// The place of a kind of component among the others.
pub open spec fn comp_rank(c: Comp) -> int {
    match c {
        Comp::Root => 0,
        Comp::Cur => 1,
        Comp::Parent => 2,
        Comp::Name(_) => 3,
    }
}

/// Whether a component comes before another: by its kind, and names by their characters.
pub open spec fn comp_lt(a: Comp, b: Comp) -> bool {
    match (a, b) {
        (Comp::Name(x), Comp::Name(y)) => text_lt(x, y),
        _ => comp_rank(a) < comp_rank(b),
    }
}

/// Whether a list of components comes before another: by the first that differs, with a
/// start of a list before the list.
pub open spec fn comps_lt(a: Seq<Comp>, b: Seq<Comp>) -> bool
    decreases a.len(),
{
    if b.len() == 0 {
        false
    } else if a.len() == 0 {
        true
    } else if a[0] != b[0] {
        comp_lt(a[0], b[0])
    } else {
        comps_lt(a.drop_first(), b.drop_first())
    }
}

/// Whether a path comes before another in the order of their components.
pub open spec fn path_lt(a: Seq<char>, b: Seq<char>) -> bool {
    comps_lt(path_components(a), path_components(b))
}

fn rank(c: &Component) -> (r: u8)
    ensures
        r == comp_rank(c@),
{
    match c {
        Component::RootDir => 0,
        Component::CurDir => 1,
        Component::ParentDir => 2,
        Component::Normal(_) => 3,
    }
}

fn component_less(a: &Component, b: &Component) -> (r: bool)
    ensures
        r == comp_lt(a@, b@),
{
    match (a, b) {
        (Component::Normal(x), Component::Normal(y)) => less(x.as_str(), y.as_str()),
        _ => rank(a) < rank(b),
    }
}

/// Whether a path comes before another in the order of their components.
pub fn path_less(a: &str, b: &str) -> (r: bool)
    ensures
        r == path_lt(a@, b@),
{
    let x = components(a);
    let y = components(b);
    let ghost p = comps(x@);
    let ghost q = comps(y@);
    let mut i: usize = 0;
    assert(p.skip(0) =~= p);
    assert(q.skip(0) =~= q);
    while i < x.len() && i < y.len()
        invariant
            i <= x.len(),
            i <= y.len(),
            p == comps(x@),
            q == comps(y@),
            path_lt(a@, b@) == comps_lt(p.skip(i as int), q.skip(i as int)),
        decreases x.len() - i,
    {
        assert(p.skip(i as int)[0] == x@[i as int]@);
        assert(q.skip(i as int)[0] == y@[i as int]@);
        if !same_component(&x[i], &y[i]) {
            return component_less(&x[i], &y[i]);
        }
        assert(p.skip(i as int).drop_first() =~= p.skip(i + 1));
        assert(q.skip(i as int).drop_first() =~= q.skip(i + 1));
        i = i + 1;
    }
    i < y.len()
}

/// Whether a path stands in its plain form: it starts at the root, and it is the path that its
/// components make.
pub open spec fn plain_path(p: Seq<char>) -> bool {
    absolute(p) && rendered(path_components(p)) == p
}

/// Whether a component is one that paths hold behind the root.
spec fn is_step(c: Comp) -> bool {
    match c {
        Comp::Parent => true,
        Comp::Name(s) => s.len() > 0 && !s.contains('/') && s != ".."@,
        _ => false,
    }
}

spec fn all_steps(list: Seq<Comp>) -> bool {
    forall|i: int| 0 <= i < list.len() ==> is_step(#[trigger] list[i])
}

proof fn lemma_pieces_are_steps(pieces: Seq<Seq<char>>, from: int)
    requires
        forall|i: int| 0 <= i < pieces.len() ==> !(#[trigger] pieces[i]).contains('/'),
    ensures
        all_steps(pieces_components(pieces, from, true)),
    decreases pieces.len() - from,
{
    if 0 <= from < pieces.len() {
        lemma_pieces_are_steps(pieces, from + 1);
    }
}

proof fn lemma_step_text(c: Comp)
    requires
        is_step(c),
    ensures
        comp_text(c).len() > 0,
        !comp_text(c).contains('/'),
        comp_text(c)[0] != '/',
{
    reveal_strlit("..");
    let t = comp_text(c);
    assert(t.contains(t[0]));
}

/// What the components behind the root make is empty only of none, and starts with no `/`.
proof fn lemma_steps_are_relative(list: Seq<Comp>)
    requires
        all_steps(list),
    ensures
        list.len() > 0 ==> rendered(list).len() > 0 && rendered(list)[0] != '/',
    decreases list.len(),
{
    if list.len() == 1 {
        lemma_step_text(list[0]);
    } else if list.len() > 1 {
        assert(is_step(list[0]));
        lemma_steps_are_relative(list.drop_last());
    }
}

/// The components behind the root are told apart by what they make.
proof fn lemma_steps_told_apart(a: Seq<Comp>, b: Seq<Comp>)
    requires
        all_steps(a),
        all_steps(b),
        rendered(a) == rendered(b),
    ensures
        a == b,
    decreases a.len(),
{
    reveal_strlit("/");
    reveal_strlit("..");
    lemma_steps_are_relative(a);
    lemma_steps_are_relative(b);
    if a.len() > 0 && b.len() > 0 {
        let whole = rendered(a);
        let t = comp_text(a.last());
        let u = comp_text(b.last());
        lemma_step_text(a.last());
        lemma_step_text(b.last());
        assert(is_step(a[0]) && is_step(b[0]));
        let x = rendered(a.drop_last());
        let y = rendered(b.drop_last());
        if a.len() > 1 {
            assert(whole == x + "/"@ + t);
        }
        if b.len() > 1 {
            assert(whole == y + "/"@ + u);
        }
        if a.len() == 1 && b.len() > 1 {
            assert(t[y.len() as int] == '/');
        } else if a.len() > 1 && b.len() == 1 {
            assert(u[x.len() as int] == '/');
        } else if a.len() > 1 {
            if x.len() < y.len() {
                assert(whole[y.len() as int] == '/');
                assert(t[y.len() - x.len() - 1] == '/');
            } else if y.len() < x.len() {
                assert(whole[x.len() as int] == '/');
                assert(u[x.len() - y.len() - 1] == '/');
            }
            assert(x =~= whole.take(x.len() as int));
            assert(y =~= whole.take(y.len() as int));
            assert(t =~= whole.skip(x.len() as int + 1));
            assert(u =~= whole.skip(y.len() as int + 1));
            lemma_steps_told_apart(a.drop_last(), b.drop_last());
        }
        assert(t == u);
        assert(a.last() == b.last());
        assert(a =~= a.drop_last().push(a.last()));
        assert(b =~= b.drop_last().push(b.last()));
        if a.len() == 1 {
            assert(a =~= b);
        }
    }
}

proof fn lemma_absolute_components(p: Seq<char>)
    requires
        absolute(p),
    ensures
        path_components(p).len() > 0,
        path_components(p)[0] == Comp::Root,
        forall|i: int|
            0 < i < path_components(p).len() ==> is_step(#[trigger] path_components(p)[i]),
{
    let pieces = split_on(p, '/');
    lemma_split_parts(p, '/');
    lemma_pieces_are_steps(pieces, 0);
    let tail = pieces_components(pieces, 0, true);
    assert forall|i: int| 0 < i < path_components(p).len() implies is_step(
        #[trigger] path_components(p)[i],
    ) by {
        assert(path_components(p)[i] == tail[i - 1]);
    }
}

/// Plain paths are told apart by what they are seen from a directory.
pub proof fn plain_paths_are_told_apart(p: Seq<char>, q: Seq<char>, base: Seq<char>)
    requires
        plain_path(p),
        plain_path(q),
        path_relative(p, base) == path_relative(q, base),
    ensures
        p == q,
{
    let a = path_components(p);
    let b = path_components(q);
    let n = path_components(base).len() as int;
    lemma_absolute_components(p);
    lemma_absolute_components(q);
    if n == 0 {
        assert(path_components(base).is_prefix_of(a) && path_components(base).is_prefix_of(b));
        assert(a.skip(0) =~= a && b.skip(0) =~= b);
    } else {
        if path_under(p, base) {
            assert(all_steps(a.skip(n)));
            lemma_steps_are_relative(a.skip(n));
        }
        if path_under(q, base) {
            assert(all_steps(b.skip(n)));
            lemma_steps_are_relative(b.skip(n));
        }
        if path_under(p, base) && path_under(q, base) {
            lemma_steps_told_apart(a.skip(n), b.skip(n));
            assert(a =~= a.take(n) + a.skip(n));
            assert(b =~= b.take(n) + b.skip(n));
        }
    }
}

proof fn lemma_split_behind(a: Seq<char>, b: Seq<char>, sep: char)
    requires
        !b.contains(sep),
    ensures
        split_on(a.push(sep) + b, sep) == split_on(a, sep).push(b),
    decreases a.len(),
{
    let s = a.push(sep) + b;
    lemma_char_found(a, sep, 0);
    lemma_char_found(s, sep, 0);
    match find_char_from(a, sep, 0) {
        Some(i) => {
            let rest = a.subrange(i + 1, a.len() as int);
            let j = find_char_from(s, sep, 0)->0;
            assert(s[i] == sep);
            if j < i {
                assert(a[j] == s[j]);
            }
            assert(j == i);
            assert(s.subrange(0, i) =~= a.subrange(0, i));
            assert(s.subrange(i + 1, s.len() as int) =~= rest.push(sep) + b);
            lemma_split_behind(rest, b, sep);
            assert(split_on(s, sep) =~= split_on(a, sep).push(b));
        },
        None => {
            let n = a.len() as int;
            assert(s[n] == sep);
            let j = find_char_from(s, sep, 0)->0;
            if j < n {
                assert(a[j] == s[j]);
            }
            assert(s.subrange(0, n) =~= a);
            assert(s.subrange(n + 1, s.len() as int) =~= b);
            lemma_char_found(b, sep, 0);
            match find_char_from(b, sep, 0) {
                Some(k) => {
                    assert(b.contains(b[k]));
                },
                None => {},
            }
            assert(split_on(b, sep) == seq![b]);
            assert(split_on(a, sep) == seq![a]);
            assert(split_on(s, sep) == seq![a] + split_on(b, sep));
            assert(split_on(s, sep) =~= split_on(a, sep).push(b));
        },
    }
}

proof fn lemma_piece_behind(pieces: Seq<Seq<char>>, x: Seq<char>, from: int, rooted: bool)
    requires
        0 <= from <= pieces.len(),
        pieces.len() > 0,
    ensures
        pieces_components(pieces.push(x), from, rooted) == pieces_components(pieces, from, rooted)
            + (if x.len() == 0 || x == "."@ {
            Seq::empty()
        } else if x == ".."@ {
            seq![Comp::Parent]
        } else {
            seq![Comp::Name(x)]
        }),
    decreases pieces.len() - from,
{
    let all = pieces.push(x);
    if from < pieces.len() {
        lemma_piece_behind(pieces, x, from + 1, rooted);
        assert(all[from] == pieces[from]);
        assert(pieces_components(all, from, rooted) =~= pieces_components(pieces, from, rooted) + (
        if x.len() == 0 || x == "."@ {
            Seq::empty()
        } else if x == ".."@ {
            seq![Comp::Parent]
        } else {
            seq![Comp::Name(x)]
        }));
    } else {
        assert(all[from] == x);
        assert(pieces_components(all, from + 1, rooted) =~= Seq::<Comp>::empty());
        assert(pieces_components(pieces, from, rooted) =~= Seq::<Comp>::empty());
    }
}

/// A path goes on step by step: a name behind a slash is one more step, two dots are a step up, and
/// nothing or a single dot is none.
pub proof fn paths_go_on_step_by_step(p: Seq<char>, name: Seq<char>)
    requires
        p.len() > 0,
        !name.contains('/'),
    ensures
        name.len() > 0 && name != "."@ && name != ".."@ ==> path_components(p.push('/') + name)
            == path_components(p).push(Comp::Name(name)),
        name == ".."@ ==> path_components(p.push('/') + name) == path_components(p).push(
            Comp::Parent,
        ),
        name.len() == 0 || name == "."@ ==> path_components(p.push('/') + name) == path_components(
            p,
        ),
{
    let whole = p.push('/') + name;
    let pieces = split_on(p, '/');
    lemma_split_behind(p, name, '/');
    assert(whole[0] == p[0]);
    lemma_piece_behind(pieces, name, 0, absolute(p));
    reveal_strlit(".");
    reveal_strlit("..");
    assert("."@.len() == 1);
    assert(".."@.len() == 2);
    let tail = pieces_components(pieces, 0, absolute(p));
    let more = if name.len() == 0 || name == "."@ {
        Seq::empty()
    } else if name == ".."@ {
        seq![Comp::Parent]
    } else {
        seq![Comp::Name(name)]
    };
    if absolute(p) {
        assert(path_components(whole) =~= path_components(p) + more);
    }
    assert(path_components(p) + Seq::<Comp>::empty() =~= path_components(p));
    assert(path_components(p) + seq![Comp::Name(name)] =~= path_components(p).push(
        Comp::Name(name),
    ));
    assert(path_components(p) + seq![Comp::Parent] =~= path_components(p).push(Comp::Parent));
}

/// A file in a directory has its name, lies below the directory, is seen from there by its name, and
/// has the directory one step up.
pub proof fn files_lie_in_their_directory(p: Seq<char>, name: Seq<char>)
    requires
        plain_path(p),
        name.len() > 0,
        name != "."@,
        name != ".."@,
        !name.contains('/'),
    ensures
        name_of(p.push('/') + name) == Some(name),
        path_under(p.push('/') + name, p),
        path_relative(p.push('/') + name, p) == name,
        path_parent(p.push('/') + name) == Some(p),
        p.last() != '/' ==> path_join(p, name) == p.push('/') + name,
{
    let whole = p.push('/') + name;
    paths_go_on_step_by_step(p, name);
    let c = path_components(p);
    let all = path_components(whole);
    assert(c.is_prefix_of(all)) by {
        assert(all.subrange(0, c.len() as int) =~= c);
    }
    assert(all.skip(c.len() as int) =~= seq![Comp::Name(name)]);
    assert(all.drop_last() =~= c);
    if p.last() != '/' {
        assert(name[0] != '/') by {
            if name[0] == '/' {
                assert(name.contains(name[0]));
            }
        }
        reveal_strlit("/");
        assert("/"@ =~= seq!['/']);
        assert(p + "/"@ + name =~= whole);
    }
}

/// The extension of a name is what stands behind its last dot, and the stem what stands before it; a
/// name without a dot, or with none but a first one, has no extension.
pub proof fn extensions_stand_behind_the_last_dot(stem: Seq<char>, ext: Seq<char>)
    requires
        !ext.contains('.'),
    ensures
        stem.len() > 0 ==> name_extension(stem.push('.') + ext) == Some(ext) && name_stem(
            stem.push('.') + ext,
        ) == stem,
        name_extension(ext) is None,
        name_stem(ext) == ext,
        name_extension(seq!['.'] + ext) is None,
        name_stem(seq!['.'] + ext) == seq!['.'] + ext,
{
    let a = stem.push('.') + ext;
    assert(a[stem.len() as int] == '.');
    assert forall|k: int| stem.len() < k < a.len() implies (#[trigger] a[k]) != '.' by {
        assert(a[k] == ext[k - stem.len() - 1]);
    }
    lemma_last_dot(a, stem.len() as int, a.len() as int);
    assert(a.skip(stem.len() as int + 1) =~= ext);
    assert(a.take(stem.len() as int) =~= stem);
    lemma_no_dot(ext, ext.len() as int);
    let b = seq!['.'] + ext;
    assert forall|k: int| 0 < k < b.len() implies (#[trigger] b[k]) != '.' by {
        assert(b[k] == ext[k - 1]);
    }
    lemma_last_dot(b, 0, b.len() as int);
}

proof fn lemma_last_dot(s: Seq<char>, k: int, upto: int)
    requires
        0 <= k < upto <= s.len(),
        s[k] == '.',
        forall|i: int| k < i < s.len() ==> (#[trigger] s[i]) != '.',
    ensures
        find_last_char(s, '.', upto) == Some(k),
    decreases upto - k,
{
    if k < upto - 1 {
        assert(s[upto - 1] != '.');
        lemma_last_dot(s, k, upto - 1);
    }
}

proof fn lemma_no_dot(s: Seq<char>, upto: int)
    requires
        !s.contains('.'),
        upto <= s.len(),
    ensures
        find_last_char(s, '.', upto) is None,
    decreases upto,
{
    if upto > 0 {
        assert(s[upto - 1] != '.');
        lemma_no_dot(s, upto - 1);
    }
}

/// A path without steps up is what is left when each of them takes a name before it away; single dots
/// are left out.
pub proof fn steps_up_take_names_away(list: Seq<Comp>, name: Seq<char>)
    ensures
        normalized(list.push(Comp::Cur)) == normalized(list),
        normalized(list.push(Comp::Name(name))) == normalized(list).push(Comp::Name(name)),
        normalized(list.push(Comp::Name(name)).push(Comp::Parent)) == normalized(list),
        normalized(seq![Comp::Root]) == seq![Comp::Root],
{
    reveal_with_fuel(normalized, 2);
    assert(list.push(Comp::Cur).drop_last() =~= list);
    let one = list.push(Comp::Name(name));
    assert(one.drop_last() =~= list);
    assert(one.push(Comp::Parent).drop_last() =~= one);
    assert(normalized(one) == normalized(list).push(Comp::Name(name)));
    assert(normalized(list).push(Comp::Name(name)).drop_last() =~= normalized(list));
    assert(seq![Comp::Root].drop_last() =~= Seq::<Comp>::empty());
    assert(normalized(Seq::<Comp>::empty()) =~= Seq::<Comp>::empty());
    assert(normalized(seq![Comp::Root]) =~= seq![Comp::Root]);
}

/// Paths go by their steps, the root first, and names by their characters; a path comes before
/// everything below it.
pub proof fn paths_go_by_their_steps(a: Seq<Comp>, b: Seq<Comp>, x: Seq<char>, y: Seq<char>)
    ensures
        a.len() > 0 ==> comps_lt(Seq::empty(), a),
        !comps_lt(a, Seq::empty()),
        text_lt(x, y) && x != y ==> comps_lt(seq![Comp::Name(x)] + a, seq![Comp::Name(y)] + b),
        comps_lt(seq![Comp::Root] + a, seq![Comp::Name(x)] + b),
        comps_lt(a, b) ==> comps_lt(seq![Comp::Name(x)] + a, seq![Comp::Name(x)] + b),
{
    let n = seq![Comp::Name(x)];
    assert((n + a).drop_first() =~= a);
    assert((n + b).drop_first() =~= b);
    assert((n + a)[0] == Comp::Name(x));
    assert((seq![Comp::Name(y)] + b)[0] == Comp::Name(y));
    assert((seq![Comp::Root] + a)[0] == Comp::Root);
    assert((n + b)[0] == Comp::Name(x));
}

} // verus!
