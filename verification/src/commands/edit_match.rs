//! Edits of a text that is looked for, in one file or in all files that a pattern names.
use vstd::arithmetic::div_mod::{lemma_fundamental_div_mod, lemma_fundamental_div_mod_converse};
use vstd::prelude::*;

use crate::commands::batch::{
    apart_downward, applied, batch_edits_are_simultaneous, untouched, woven, EditModel, Match,
};
use crate::commands::refusal::{
    invalid, need, needed, refuse, refused, reject, text_verdict, verdict, Refusal, RefusalModel,
};
use crate::commands::target::{read_target, readable, Target};
use crate::edit::{
    bytes, char_range, replace_byte_range, replaced, replacements_change_their_range, LINE_FEED,
};
use crate::error::AftError;
use crate::json::{Json, JsonNumber};
use crate::models::{group_models, models};
use crate::order::{sort_list, sorted, Ranked};
use crate::paths::{absolute, is_absolute, path_less, path_lt};
use crate::text::{
    chars_of, decimal, decimal_text, join, joined, lines, lines_of, occurrence_count, owned,
    substitute, substituted, text2, text3, text4, text5, texts,
};

verus! {

/// A request to edit a text that is looked for.
pub struct MatchRequest<'a> {
    pub file: &'a str,
    pub wanted: &'a str,
    pub replacement: &'a str,
}

/// The model of a `MatchRequest`.
pub ghost struct MatchAsk {
    pub file: Seq<char>,
    pub wanted: Seq<char>,
    pub replacement: Seq<char>,
}

impl<'a> DeepView for MatchRequest<'a> {
    type V = MatchAsk;

    open spec fn deep_view(&self) -> MatchAsk {
        MatchAsk { file: self.file@, wanted: self.wanted@, replacement: self.replacement@ }
    }
}

/// The request that the parameters make.
pub open spec fn match_ask(params: Json) -> Result<MatchAsk, RefusalModel> {
    match (
        needed(params, "edit_match"@, "file"@),
        needed(params, "edit_match"@, "match"@),
        needed(params, "edit_match"@, "replacement"@),
    ) {
        (Err(e), _, _) => Err(e),
        (_, Err(e), _) => Err(e),
        (Ok(file), Ok(wanted), replacement) => if wanted.len() == 0 {
            Err(invalid("edit_match: 'match' must be a non-empty string"@))
        } else {
            match replacement {
                Err(e) => Err(e),
                Ok(replacement) => Ok(MatchAsk { file, wanted, replacement }),
            }
        },
    }
}

/// The request that the parameters make.
pub fn read_match_request(params: &Json) -> (r: Result<MatchRequest<'_>, Refusal>)
    ensures
        match (r, match_ask(*params)) {
            (Ok(a), Ok(b)) => a.deep_view() == b && b.wanted.len() > 0,
            (Err(e), Err(m)) => e.deep_view() == m,
            _ => false,
        },
{
    let file = match need(params, "edit_match", "file") {
        Ok(s) => s,
        Err(e) => {
            return Err(e);
        },
    };
    let wanted = match need(params, "edit_match", "match") {
        Ok(s) => s,
        Err(e) => {
            return Err(e);
        },
    };
    if wanted.is_empty() {
        return Err(reject("edit_match: 'match' must be a non-empty string"));
    }
    let replacement = match need(params, "edit_match", "replacement") {
        Ok(s) => s,
        Err(e) => {
            return Err(e);
        },
    };
    Ok(MatchRequest { file, wanted, replacement })
}

/// Whether a path is a pattern for many paths.
pub open spec fn names_many(path: Seq<char>) -> bool {
    path.contains('*') || path.contains('?') || path.contains('{') || path.contains('[')
}

/// Whether a path is a pattern for many paths.
pub fn is_glob_pattern(path: &str) -> (r: bool)
    ensures
        r == names_many(path@),
{
    let c = chars_of(path);
    let mut i: usize = 0;
    while i < c.len()
        invariant
            i <= c.len(),
            c@ == path@,
            forall|k: int|
                0 <= k < i ==> c@[k] != '*' && c@[k] != '?' && c@[k] != '{' && c@[k] != '[',
        decreases c.len() - i,
    {
        if c[i] == '*' || c[i] == '?' || c[i] == '{' || c[i] == '[' {
            assert(path@.contains(c@[i as int]));
            return true;
        }
        i = i + 1;
    }
    false
}

/// A pattern as it is looked for: below the root where it is not absolute.
pub fn full_pattern(pattern: &str, root: &str) -> (r: String)
    ensures
        r@ == (if absolute(pattern@) {
            pattern@
        } else {
            root@ + "/"@ + pattern@
        }),
{
    if is_absolute(pattern) {
        owned(pattern)
    } else {
        text3(root, "/", pattern)
    }
}

/// A file that a pattern names, with its text where it can be read, and the path that was
/// validated for it, or why it is out of bounds.
pub struct GlobFile {
    pub path: String,
    pub content: Option<String>,
    pub validated: Result<String, Refusal>,
}

/// The model of a `GlobFile`.
pub ghost struct Named {
    pub path: Seq<char>,
    pub content: Option<Seq<char>>,
    pub validated: Result<Seq<char>, RefusalModel>,
}

impl DeepView for GlobFile {
    type V = Named;

    open spec fn deep_view(&self) -> Named {
        Named {
            path: self.path@,
            content: self.content.deep_view(),
            validated: match self.validated {
                Ok(path) => Ok(path@),
                Err(e) => Err(e.deep_view()),
            },
        }
    }
}

impl Ranked for GlobFile {
    open spec fn before(a: Named, b: Named) -> bool {
        path_lt(a.path, b.path)
    }

    fn precedes(&self, other: &GlobFile) -> (r: bool) {
        path_less(self.path.as_str(), other.path.as_str())
    }
}

/// A file that is to be written at its validated path, with the name that it is told by, the text
/// that it has now and how many replacements there are.
pub struct PendingEdit {
    pub path: String,
    pub file: String,
    pub source: String,
    pub new_source: String,
    pub count: usize,
}

/// The model of a `PendingEdit`.
#[verifier::ext_equal]
pub ghost struct Pending {
    pub path: Seq<char>,
    pub file: Seq<char>,
    pub source: Seq<char>,
    pub new_source: Seq<char>,
    pub count: nat,
}

impl DeepView for PendingEdit {
    type V = Pending;

    open spec fn deep_view(&self) -> Pending {
        Pending {
            path: self.path@,
            file: self.file@,
            source: self.source@,
            new_source: self.new_source@,
            count: self.count as nat,
        }
    }
}

/// The files of `files` that hold the text, with it replaced. Where they are to be written, the
/// first of them that is out of bounds ends all.
pub open spec fn pending_in(
    files: Seq<Named>,
    wanted: Seq<char>,
    by: Seq<char>,
    write: bool,
) -> Result<Seq<Pending>, RefusalModel>
    decreases files.len(),
{
    if files.len() == 0 {
        Ok(Seq::empty())
    } else {
        match pending_in(files.drop_last(), wanted, by, write) {
            Err(e) => Err(e),
            Ok(rest) => match files.last().content {
                Some(source) => if occurrence_count(source, wanted) > 0 {
                    match (write, files.last().validated) {
                        (true, Err(e)) => Err(e),
                        (_, validated) => Ok(
                            rest.push(
                                Pending {
                                    path: if write {
                                        validated->Ok_0
                                    } else {
                                        files.last().path
                                    },
                                    file: files.last().path,
                                    source,
                                    new_source: substituted(source, wanted, by),
                                    count: occurrence_count(source, wanted),
                                },
                            ),
                        ),
                    }
                } else {
                    Ok(rest)
                },
                None => Ok(rest),
            },
        }
    }
}

proof fn lemma_pending_stays_refused(
    files: Seq<Named>,
    wanted: Seq<char>,
    by: Seq<char>,
    write: bool,
    n: int,
    m: int,
)
    requires
        0 <= n <= m <= files.len(),
        pending_in(files.take(n), wanted, by, write) is Err,
    ensures
        pending_in(files.take(m), wanted, by, write) == pending_in(
            files.take(n),
            wanted,
            by,
            write,
        ),
    decreases m,
{
    if n < m {
        lemma_pending_stays_refused(files, wanted, by, write, n, m - 1);
        assert(files.take(m).drop_last() =~= files.take(m - 1));
    }
}

/// The edits of a request on the files that its pattern names, in the order of their paths.
/// There must be such a file, and one that holds the text.
pub open spec fn glob_edits(
    files: Seq<Named>,
    pattern: Seq<char>,
    wanted: Seq<char>,
    by: Seq<char>,
    write: bool,
) -> Result<Seq<Pending>, RefusalModel> {
    if files.len() == 0 {
        Err(
            refused("match_not_found"@, "edit_match: no files matched glob '"@ + pattern + "'"@),
        )
    } else {
        match pending_in(sorted::<GlobFile>(files), wanted, by, write) {
            Err(e) => Err(e),
            Ok(pending) => if pending.len() == 0 {
                Err(
                    refused(
                        "match_not_found"@,
                        "edit_match: '"@ + wanted + "' not found in any files matching '"@
                            + pattern + "'"@,
                    ),
                )
            } else {
                Ok(pending)
            },
        }
    }
}

/// The edits of a request on the files that its pattern names; `write` says whether they are to
/// be written and not only shown.
pub fn handle_glob_edit_match(
    files: Vec<GlobFile>,
    pattern: &str,
    wanted: &str,
    replacement: &str,
    write: bool,
) -> (r: Result<Vec<PendingEdit>, Refusal>)
    requires
        wanted@.len() > 0,
    ensures
        match (r, glob_edits(models(files@), pattern@, wanted@, replacement@, write)) {
            (Ok(v), Ok(t)) => models(v@) == t,
            (Err(e), Err(m)) => e.deep_view() == m,
            _ => false,
        },
{
    broadcast use group_models;

    if files.len() == 0 {
        return Err(
            refuse(
                "match_not_found",
                text3("edit_match: no files matched glob '", pattern, "'"),
            ),
        );
    }
    let ghost asked = models(files@);
    let ordered = sort_list(files);
    let ghost given = ordered@;
    let ghost all = models(ordered@);
    let count = ordered.len();
    let mut rest = ordered;
    let mut out: Vec<PendingEdit> = Vec::new();
    let mut i: usize = 0;
    assert(given.skip(0) =~= given);
    assert(all.take(0) =~= Seq::<Named>::empty());
    while i < count
        invariant
            i <= count,
            count == given.len(),
            wanted@.len() > 0,
            asked == models(files@),
            asked.len() > 0,
            all == sorted::<GlobFile>(asked),
            rest@ == given.skip(i as int),
            all == models(given),
            pending_in(all.take(i as int), wanted@, replacement@, write) == Ok::<_, RefusalModel>(
                models(out@),
            ),
        decreases count - i,
    {
        assert(all.take(i + 1).drop_last() =~= all.take(i as int));
        let f = rest.remove(0);
        assert(f == given[i as int]);
        assert(rest@ =~= given.skip(i + 1));
        assert(all[i as int] == f.deep_view());
        match &f.content {
            Some(source) => {
                let (new_source, n) = substitute(source.as_str(), wanted, replacement);
                if n > 0 {
                    let path = if write {
                        match f.validated {
                            Ok(path) => path,
                            Err(e) => {
                                proof {
                                    lemma_pending_stays_refused(
                                        all,
                                        wanted@,
                                        replacement@,
                                        write,
                                        i + 1,
                                        all.len() as int,
                                    );
                                    assert(all.take(all.len() as int) =~= all);
                                }
                                return Err(e);
                            },
                        }
                    } else {
                        owned(f.path.as_str())
                    };
                    let e = PendingEdit {
                        path,
                        file: owned(f.path.as_str()),
                        source: owned(source.as_str()),
                        new_source,
                        count: n,
                    };
                    let ghost before = models(out@);
                    let ghost m = e.deep_view();
                    out.push(e);
                    assert(models(out@) == before.push(m));
                }
            },
            None => {},
        }
        i = i + 1;
    }
    assert(all.take(i as int) =~= all);
    if out.len() == 0 {
        return Err(
            refuse(
                "match_not_found",
                text5(
                    "edit_match: '",
                    wanted,
                    "' not found in any files matching '",
                    pattern,
                    "'",
                ),
            ),
        );
    }
    Ok(out)
}

/// How many replacements the edits make together.
pub open spec fn replacements(pending: Seq<Pending>) -> nat
    decreases pending.len(),
{
    if pending.len() == 0 {
        0
    } else {
        replacements(pending.drop_last()) + pending.last().count
    }
}

/// How many replacements the edits make together, up to the largest number that fits.
pub fn total_replacements(pending: &Vec<PendingEdit>) -> (r: usize)
    ensures
        r == (if replacements(models(pending@)) > usize::MAX {
            usize::MAX as nat
        } else {
            replacements(models(pending@))
        }),
{
    let ghost all = models(pending@);
    let mut n: usize = 0;
    let mut i: usize = 0;
    while i < pending.len()
        invariant
            i <= pending.len(),
            all == models(pending@),
            n == (if replacements(all.take(i as int)) > usize::MAX {
                usize::MAX as nat
            } else {
                replacements(all.take(i as int))
            }),
        decreases pending.len() - i,
    {
        assert(all.take(i + 1).drop_last() =~= all.take(i as int));
        assert(all[i as int] == pending@[i as int].deep_view());
        n = n.saturating_add(pending[i].count);
        i = i + 1;
    }
    assert(all.take(i as int) =~= all);
    n
}

/// How carrying out the edits went.
pub enum GlobEvent {
    /// The files could not be kept in a checkpoint.
    CheckpointFailed(AftError),
    /// A file could not be backed up.
    BackupFailed(AftError),
    /// The file at an index could not be written, for a reason.
    WriteFailed { index: usize, error: String },
    /// A written file could not be formatted or its syntax not be looked at.
    FinishFailed(AftError),
    /// Every file was written.
    Finished,
}

/// How edits end: what is put back from the checkpoint, whether the checkpoint is dropped,
/// and why the request is refused.
pub struct GlobEnd {
    pub restore: Vec<String>,
    pub delete_checkpoint: bool,
    pub refusal: Option<Refusal>,
}

/// The paths of the first `n` edits.
pub open spec fn first_paths(pending: Seq<Pending>, n: int) -> Seq<Seq<char>> {
    Seq::new(n as nat, |i: int| pending[i].path)
}

fn paths_of(pending: &Vec<PendingEdit>, n: usize) -> (r: Vec<String>)
    requires
        n <= pending@.len(),
    ensures
        texts(r@) == first_paths(models(pending@), n as int),
{
    let mut out: Vec<String> = Vec::new();
    let mut i: usize = 0;
    while i < n
        invariant
            i <= n <= pending@.len(),
            out@.len() == i,
            forall|k: int| 0 <= k < i ==> (#[trigger] out@[k])@ == pending@[k].path@,
        decreases n - i,
    {
        out.push(owned(pending[i].path.as_str()));
        i = i + 1;
    }
    assert(texts(out@) =~= first_paths(models(pending@), n as int));
    out
}

/// How edits end after an event. What was written before a file could not be written is put
/// back, so that a request is carried out on all files or on none; without a failure nothing
/// is put back.
pub fn end_glob_edit(pending: &Vec<PendingEdit>, event: GlobEvent) -> (r: GlobEnd)
    requires
        event is WriteFailed ==> event->index < pending@.len(),
    ensures
        match event {
            GlobEvent::CheckpointFailed(e) => {
                &&& r.restore@.len() == 0
                &&& !r.delete_checkpoint
                &&& r.refusal is Some
                &&& (r.refusal->0).deep_view() == RefusalModel::Error(e.deep_view())
            },
            GlobEvent::BackupFailed(e) => {
                &&& r.restore@.len() == 0
                &&& r.delete_checkpoint
                &&& r.refusal is Some
                &&& (r.refusal->0).deep_view() == RefusalModel::Error(e.deep_view())
            },
            GlobEvent::WriteFailed { index, error } => {
                &&& texts(r.restore@) == first_paths(models(pending@), index as int)
                &&& r.delete_checkpoint
                &&& r.refusal is Some
                &&& (r.refusal->0).deep_view() == refused(
                    "write_error"@,
                    "failed to write "@ + pending@[index as int].file@ + ": "@ + error@,
                )
            },
            GlobEvent::FinishFailed(e) => {
                &&& texts(r.restore@) == first_paths(models(pending@), pending@.len() as int)
                &&& r.delete_checkpoint
                &&& r.refusal is Some
                &&& (r.refusal->0).deep_view() == RefusalModel::Error(e.deep_view())
            },
            GlobEvent::Finished => {
                &&& r.restore@.len() == 0
                &&& r.delete_checkpoint
                &&& r.refusal is None
            },
        },
{
    match event {
        GlobEvent::CheckpointFailed(e) => GlobEnd {
            restore: Vec::new(),
            delete_checkpoint: false,
            refusal: Some(Refusal::Error(e)),
        },
        GlobEvent::BackupFailed(e) => GlobEnd {
            restore: Vec::new(),
            delete_checkpoint: true,
            refusal: Some(Refusal::Error(e)),
        },
        GlobEvent::WriteFailed { index, error } => GlobEnd {
            restore: paths_of(pending, index),
            delete_checkpoint: true,
            refusal: Some(
                refuse(
                    "write_error",
                    text4(
                        "failed to write ",
                        pending[index].file.as_str(),
                        ": ",
                        error.as_str(),
                    ),
                ),
            ),
        },
        GlobEvent::FinishFailed(e) => GlobEnd {
            restore: paths_of(pending, pending.len()),
            delete_checkpoint: true,
            refusal: Some(Refusal::Error(e)),
        },
        GlobEvent::Finished => GlobEnd {
            restore: Vec::new(),
            delete_checkpoint: true,
            refusal: None,
        },
    }
}

/// The name of the checkpoint that the edits of one request are kept in; `nanos` tells the
/// requests apart.
pub fn glob_checkpoint_name(nanos: u64) -> (r: String)
    ensures
        r@ == "__edit_match_glob_"@ + decimal(nanos as nat) + "__"@,
{
    text3("__edit_match_glob_", decimal_text(nanos).as_str(), "__")
}

/// The files once the first `n` edits are written.
pub open spec fn written(
    disk: Map<Seq<char>, Seq<char>>,
    pending: Seq<Pending>,
    n: int,
) -> Map<Seq<char>, Seq<char>>
    decreases n,
{
    if n <= 0 || n > pending.len() {
        disk
    } else {
        written(disk, pending, n - 1).insert(pending[n - 1].path, pending[n - 1].new_source)
    }
}

/// The files once the first `n` paths have the content again that the checkpoint kept.
pub open spec fn put_back(
    disk: Map<Seq<char>, Seq<char>>,
    kept: Map<Seq<char>, Seq<char>>,
    pending: Seq<Pending>,
    n: int,
) -> Map<Seq<char>, Seq<char>>
    decreases n,
{
    if n <= 0 || n > pending.len() {
        disk
    } else {
        put_back(disk, kept, pending, n - 1).insert(
            pending[n - 1].path,
            kept[pending[n - 1].path],
        )
    }
}

/// Where a write fails, every file that was written before it ends as it was before the
/// request: no request is seen half carried out.
pub proof fn failed_edit_leaves_the_files(
    disk: Map<Seq<char>, Seq<char>>,
    pending: Seq<Pending>,
    n: int,
)
    requires
        0 <= n <= pending.len(),
        forall|i: int| 0 <= i < pending.len() ==> disk.dom().contains(#[trigger] pending[i].path),
    ensures
        put_back(written(disk, pending, n), disk, pending, n) == disk,
{
    lemma_written(disk, pending, n);
    lemma_put_back(written(disk, pending, n), disk, pending, n);
    let after = put_back(written(disk, pending, n), disk, pending, n);
    assert(after =~= disk);
}

proof fn lemma_written(disk: Map<Seq<char>, Seq<char>>, pending: Seq<Pending>, n: int)
    requires
        0 <= n <= pending.len(),
        forall|i: int| 0 <= i < pending.len() ==> disk.dom().contains(#[trigger] pending[i].path),
    ensures
        written(disk, pending, n).dom() == disk.dom(),
        forall|p: Seq<char>|
            (forall|i: int| 0 <= i < n ==> #[trigger] pending[i].path != p) ==> (#[trigger] written(
                disk,
                pending,
                n,
            )[p]) == disk[p],
    decreases n,
{
    if n > 0 {
        lemma_written(disk, pending, n - 1);
        assert(disk.dom().contains(pending[n - 1].path));
        assert(written(disk, pending, n).dom() =~= disk.dom());
        assert forall|p: Seq<char>|
            (forall|i: int| 0 <= i < n ==> #[trigger] pending[i].path != p) implies (
        #[trigger] written(disk, pending, n)[p]) == disk[p] by {
            assert(pending[n - 1].path != p);
            assert(written(disk, pending, n - 1)[p] == disk[p]);
        }
    }
}

proof fn lemma_put_back(
    now: Map<Seq<char>, Seq<char>>,
    disk: Map<Seq<char>, Seq<char>>,
    pending: Seq<Pending>,
    n: int,
)
    requires
        0 <= n <= pending.len(),
        now.dom() == disk.dom(),
        forall|i: int| 0 <= i < pending.len() ==> disk.dom().contains(#[trigger] pending[i].path),
    ensures
        put_back(now, disk, pending, n).dom() == disk.dom(),
        forall|p: Seq<char>|
            #[trigger] put_back(now, disk, pending, n)[p] == (if exists|i: int|
                0 <= i < n && #[trigger] pending[i].path == p {
                disk[p]
            } else {
                now[p]
            }),
    decreases n,
{
    if n > 0 {
        lemma_put_back(now, disk, pending, n - 1);
        assert(disk.dom().contains(pending[n - 1].path));
        assert(put_back(now, disk, pending, n).dom() =~= disk.dom());
        assert forall|p: Seq<char>|
            #[trigger] put_back(now, disk, pending, n)[p] == (if exists|i: int|
                0 <= i < n && #[trigger] pending[i].path == p {
                disk[p]
            } else {
                now[p]
            }) by {
            let before = put_back(now, disk, pending, n - 1);
            if pending[n - 1].path == p {
            } else {
                assert(put_back(now, disk, pending, n)[p] == before[p]);
                if exists|i: int| 0 <= i < n && #[trigger] pending[i].path == p {
                    let i = choose|i: int| 0 <= i < n && #[trigger] pending[i].path == p;
                    assert(i < n - 1);
                }
            }
        }
    }
}

/// A number as a machine word: what is left of it once it has wrapped around.
pub open spec fn wrapped_word(n: int) -> int {
    n % (usize::MAX + 1)
}

fn word(n: i64) -> (r: usize)
    ensures
        r == wrapped_word(n as int),
{
    let base: u128 = usize::MAX as u128 + 1;
    let wide: i128 = n as i128;
    if wide >= 0 {
        (wide as u128 % base) as usize
    } else {
        let below: u128 = (-(wide + 1)) as u128;
        let back: u128 = below % base;
        proof {
            let q = (below / base) as int;
            let left = base - 1 - back;
            lemma_fundamental_div_mod(below as int, base as int);
            assert(n as int == (-q - 1) * base + left) by (nonlinear_arith)
                requires
                    -(n + 1) == base * q + back,
                    left == base - 1 - back,
            ;
            lemma_fundamental_div_mod_converse(n as int, base as int, -q - 1, left);
        }
        (base - 1 - back) as usize
    }
}

/// The occurrence that a request selects, counted from zero. A negative number wraps around.
pub open spec fn selected(params: Json) -> Option<int> {
    match params.field("occurrence"@) {
        Some(Json::Number(JsonNumber::Unsigned(n))) => if n <= i64::MAX {
            Some(wrapped_word(n as int))
        } else {
            None
        },
        Some(Json::Number(JsonNumber::Negative(n))) => Some(wrapped_word(n as int)),
        _ => None,
    }
}

/// The model of an index that may be missing.
pub open spec fn index_model(n: Option<usize>) -> Option<int> {
    match n {
        Some(i) => Some(i as int),
        None => None,
    }
}

fn read_selected(params: &Json) -> (r: Option<usize>)
    ensures
        index_model(r) == selected(*params),
{
    match params.get("occurrence") {
        Some(Json::Number(JsonNumber::Unsigned(n))) => {
            if *n <= i64::MAX as u64 {
                Some(word(*n as i64))
            } else {
                None
            }
        },
        Some(Json::Number(JsonNumber::Negative(n))) => Some(word(*n)),
        _ => None,
    }
}

/// Whether a request replaces every occurrence.
pub open spec fn replaces_all(params: Json) -> bool {
    params.flag_field("replace_all"@) == Some(true)
}

/// How many line feeds there are among the first `n` bytes.
pub open spec fn line_feeds(b: Seq<u8>, n: int) -> nat
    decreases n,
{
    if n <= 0 || n > b.len() {
        0
    } else {
        line_feeds(b, n - 1) + (if b[n - 1] == LINE_FEED {
            1nat
        } else {
            0nat
        })
    }
}

/// The lines round a line: up to `margin` before it and behind it.
pub open spec fn context_of(source: Seq<char>, line: int, margin: int) -> Seq<char> {
    let all = lines_of(source);
    let start = if line > margin {
        line - margin
    } else {
        0
    };
    let end = if line + margin + 1 < all.len() {
        line + margin + 1
    } else {
        all.len() as int
    };
    if start < end {
        joined(all.subrange(start, end), "\n"@)
    } else {
        Seq::empty()
    }
}

fn build_context(source: &str, line: usize, margin: usize) -> (r: String)
    ensures
        r@ == context_of(source@, line as int, margin as int),
{
    let all = lines(source);
    assert(texts(all@).len() == all@.len());
    let start: usize = if line > margin {
        line - margin
    } else {
        0
    };
    let end: usize = if all.len() > margin && all.len() - margin > 1 && line < all.len() - margin
        - 1 {
        line + margin + 1
    } else {
        all.len()
    };
    if start >= end {
        return String::new();
    }
    let mut part: Vec<String> = Vec::new();
    let mut i: usize = start;
    while i < end
        invariant
            start <= i <= end <= all@.len(),
            part@.len() == i - start,
            forall|k: int| 0 <= k < part@.len() ==> (#[trigger] part@[k])@ == all@[start + k]@,
        decreases end - i,
    {
        part.push(owned(all[i].as_str()));
        i = i + 1;
    }
    assert(texts(part@) =~= texts(all@).subrange(start as int, end as int));
    join(&part, "\n")
}

/// One of several places where a text stands.
pub struct Occurrence {
    pub index: usize,
    /// The line, counted from one.
    pub line: usize,
    /// The lines round it.
    pub context: String,
}

/// The model of an `Occurrence`.
pub ghost struct Place {
    pub index: int,
    pub line: int,
    pub context: Seq<char>,
}

impl DeepView for Occurrence {
    type V = Place;

    open spec fn deep_view(&self) -> Place {
        Place { index: self.index as int, line: self.line as int, context: self.context@ }
    }
}

/// The place of an offset in a text.
pub open spec fn place_of(source: Seq<char>, index: int, at: int) -> Place {
    let b = bytes(source);
    let line = line_feeds(
        b,
        if at < b.len() {
            at
        } else {
            b.len() as int
        },
    );
    Place {
        index,
        line: if line >= usize::MAX {
            usize::MAX as int
        } else {
            line as int + 1
        },
        context: context_of(source, line as int, 2),
    }
}

/// The places of matches in a text.
pub open spec fn places(source: Seq<char>, found: Seq<(int, int)>) -> Seq<Place> {
    Seq::new(found.len(), |i: int| place_of(source, i, found[i].0))
}

fn list_places(source: &str, found: &Vec<Match>) -> (r: Vec<Occurrence>)
    ensures
        models(r@) == places(source@, models(found@)),
{
    broadcast use group_models;

    let b = source.as_bytes();
    let ghost all = models(found@);
    let ghost want = places(source@, all);
    let mut out: Vec<Occurrence> = Vec::new();
    let mut i: usize = 0;
    while i < found.len()
        invariant
            i <= found.len(),
            b@ == bytes(source@),
            all == models(found@),
            want == places(source@, all),
            models(out@) == want.take(i as int),
        decreases found.len() - i,
    {
        assert(all[i as int] == found@[i as int].deep_view());
        let at: usize = if found[i].byte_start < b.len() {
            found[i].byte_start
        } else {
            b.len()
        };
        let mut line: usize = 0;
        let mut k: usize = 0;
        while k < at
            invariant
                k <= at <= b@.len(),
                line <= k,
                line == line_feeds(b@, k as int),
            decreases at - k,
        {
            if b[k] == LINE_FEED {
                line = line + 1;
            }
            k = k + 1;
        }
        let o = Occurrence {
            index: i,
            line: line.saturating_add(1),
            context: build_context(source, line, 2),
        };
        let ghost before = models(out@);
        let ghost m = o.deep_view();
        out.push(o);
        assert(models(out@) == before.push(m));
        assert(want.take(i + 1) =~= want.take(i as int).push(m));
        i = i + 1;
    }
    assert(want.take(i as int) =~= want);
    out
}

/// The edits that replace every match, from the last to the first.
pub open spec fn edits_of_matches(found: Seq<(int, int)>, by: Seq<char>) -> Seq<EditModel> {
    Seq::new(
        found.len(),
        |i: int|
            {
                let m = found[found.len() - 1 - i];
                EditModel { start: m.0, end: m.0 + m.1, text: by }
            },
    )
}

/// What a request makes of a file, or the places between which it does not decide.
pub enum MatchOutcome {
    Ambiguous { message: String, occurrences: Vec<Occurrence> },
    Edited { new_source: String, replacements: usize, description: String },
}

/// The model of a `MatchOutcome`.
pub ghost enum Matched {
    Ambiguous { message: Seq<char>, occurrences: Seq<Place> },
    Edited { new_source: Seq<char>, replacements: nat, description: Seq<char> },
}

impl DeepView for MatchOutcome {
    type V = Matched;

    open spec fn deep_view(&self) -> Matched {
        match *self {
            MatchOutcome::Ambiguous { message, occurrences } => Matched::Ambiguous {
                message: message@,
                occurrences: models(occurrences@),
            },
            MatchOutcome::Edited { new_source, replacements, description } => Matched::Edited {
                new_source: new_source@,
                replacements: replacements as nat,
                description: description@,
            },
        }
    }
}

/// What a request makes of a file with a text, where the matches in it are known. Every match
/// is replaced, or the selected one, or the only one.
pub open spec fn matched(
    ask: MatchAsk,
    source: Seq<char>,
    found: Seq<(int, int)>,
    occurrence: Option<int>,
    all: bool,
) -> Result<Matched, RefusalModel> {
    if found.len() == 0 {
        Err(
            refused(
                "match_not_found"@,
                "edit_match: '"@ + ask.wanted + "' not found in "@ + ask.file,
            ),
        )
    } else if all {
        match applied(source, edits_of_matches(found, ask.replacement), 0) {
            Err(e) => Err(e),
            Ok(new_source) => Ok(
                Matched::Edited {
                    new_source,
                    replacements: found.len(),
                    description: "edit_match: "@ + ask.wanted + " (replace_all x"@ + decimal(
                        found.len(),
                    ) + ")"@,
                },
            ),
        }
    } else if occurrence is Some && occurrence->0 >= found.len() {
        Err(
            invalid(
                "edit_match: occurrence "@ + decimal(occurrence->0 as nat)
                    + " out of range, file has "@ + decimal(found.len()) + " occurrence(s)"@,
            ),
        )
    } else if occurrence is None && found.len() > 1 {
        Ok(
            Matched::Ambiguous {
                message: "Found "@ + decimal(found.len())
                    + " matches. Use 'occurrence' (0-indexed) to select one, or 'replaceAll: true' to replace all."@,
                occurrences: places(source, found),
            },
        )
    } else {
        let m = found[match occurrence {
            Some(n) => n,
            None => 0,
        }];
        match replaced(source, m.0, m.0 + m.1, ask.replacement) {
            Err(f) => Err(RefusalModel::Error(f)),
            Ok(new_source) => Ok(
                Matched::Edited {
                    new_source,
                    replacements: 1,
                    description: "edit_match: "@ + ask.wanted,
                },
            ),
        }
    }
}

fn replace_all_matches(source: &str, found: &Vec<Match>, replacement: &str) -> (r: Result<
    String,
    Refusal,
>)
    requires
        forall|i: int|
            0 <= i < found@.len() ==> #[trigger] found@[i].byte_start + found@[i].byte_len
                <= usize::MAX,
    ensures
        text_verdict(r) == applied(
            source@,
            edits_of_matches(models(found@), replacement@),
            0,
        ),
{
    let ghost edits = edits_of_matches(models(found@), replacement@);
    let mut content = owned(source);
    let mut n: usize = found.len();
    while n > 0
        invariant
            n <= found@.len(),
            edits == edits_of_matches(models(found@), replacement@),
            forall|i: int|
                0 <= i < found@.len() ==> #[trigger] found@[i].byte_start + found@[i].byte_len
                    <= usize::MAX,
            applied(source@, edits, 0) == applied(content@, edits, found@.len() - n),
        decreases n,
    {
        let m = &found[n - 1];
        assert(found@[n - 1].byte_start + found@[n - 1].byte_len <= usize::MAX);
        assert(edits[found@.len() - n] == (EditModel {
            start: m.byte_start as int,
            end: m.byte_start + m.byte_len,
            text: replacement@,
        })) by {
            assert(models(found@)[n - 1] == m.deep_view());
        }
        match replace_byte_range(
            content.as_str(),
            m.byte_start,
            m.byte_start + m.byte_len,
            replacement,
        ) {
            Ok(t) => {
                content = t;
            },
            Err(f) => {
                return Err(Refusal::Error(f));
            },
        }
        n = n - 1;
    }
    Ok(content)
}

/// What a request makes of a file with a text, where the matches in it are known.
pub fn edit_matches(
    ask: &MatchRequest<'_>,
    source: &str,
    found: &Vec<Match>,
    occurrence: Option<usize>,
    replace_all: bool,
) -> (r: Result<MatchOutcome, Refusal>)
    requires
        forall|i: int|
            0 <= i < found@.len() ==> #[trigger] found@[i].byte_start + found@[i].byte_len
                <= usize::MAX,
    ensures
        verdict(r) == matched(
            ask.deep_view(),
            source@,
            models(found@),
            index_model(occurrence),
            replace_all,
        ),
{
    let ghost all = models(found@);
    if found.len() == 0 {
        return Err(
            refuse(
                "match_not_found",
                text4("edit_match: '", ask.wanted, "' not found in ", ask.file),
            ),
        );
    }
    if replace_all {
        return match replace_all_matches(source, found, ask.replacement) {
            Err(e) => Err(e),
            Ok(new_source) => Ok(
                MatchOutcome::Edited {
                    new_source,
                    replacements: found.len(),
                    description: text5(
                        "edit_match: ",
                        ask.wanted,
                        " (replace_all x",
                        decimal_text(found.len() as u64).as_str(),
                        ")",
                    ),
                },
            ),
        };
    }
    let index: usize = match occurrence {
        Some(n) => {
            if n >= found.len() {
                return Err(
                    reject(
                        text5(
                            "edit_match: occurrence ",
                            decimal_text(n as u64).as_str(),
                            " out of range, file has ",
                            decimal_text(found.len() as u64).as_str(),
                            " occurrence(s)",
                        ).as_str(),
                    ),
                );
            }
            n
        },
        None => {
            if found.len() > 1 {
                return Ok(
                    MatchOutcome::Ambiguous {
                        message: text3(
                            "Found ",
                            decimal_text(found.len() as u64).as_str(),
                            " matches. Use 'occurrence' (0-indexed) to select one, or 'replaceAll: true' to replace all.",
                        ),
                        occurrences: list_places(source, found),
                    },
                );
            }
            0
        },
    };
    let m = &found[index];
    assert(all[index as int] == m.deep_view());
    assert(found@[index as int].byte_start + found@[index as int].byte_len <= usize::MAX);
    match replace_byte_range(source, m.byte_start, m.byte_start + m.byte_len, ask.replacement) {
        Err(f) => Err(Refusal::Error(f)),
        Ok(new_source) => Ok(
            MatchOutcome::Edited {
                new_source,
                replacements: 1,
                description: text2("edit_match: ", ask.wanted),
            },
        ),
    }
}

/// What a request makes of the file that it names.
pub open spec fn match_outcome(params: Json, t: Target, found: Seq<(int, int)>) -> Result<
    Matched,
    RefusalModel,
> {
    match match_ask(params) {
        Err(e) => Err(e),
        Ok(ask) => match readable(ask.file, t) {
            Err(e) => Err(e),
            Ok(source) => matched(ask, source, found, selected(params), replaces_all(params)),
        },
    }
}

/// What a request makes of the file that it names. `found` are the places in the file's text
/// that match what the request looks for, in order; a request that names many files is for
/// `handle_glob_edit_match`.
pub fn handle_edit_match(params: &Json, target: &Target, found: &Vec<Match>) -> (r: Result<
    MatchOutcome,
    Refusal,
>)
    requires
        forall|i: int|
            0 <= i < found@.len() ==> #[trigger] found@[i].byte_start + found@[i].byte_len
                <= usize::MAX,
    ensures
        verdict(r) == match_outcome(*params, *target, models(found@)),
{
    let ask = match read_match_request(params) {
        Ok(a) => a,
        Err(e) => {
            return Err(e);
        },
    };
    let source = match read_target(ask.file, target) {
        Ok(s) => s,
        Err(e) => {
            return Err(e);
        },
    };
    let replace_all = match params.get_flag("replace_all") {
        Some(b) => b,
        None => false,
    };
    edit_matches(&ask, source, found, read_selected(params), replace_all)
}

/// Where matches stand in order and apart, replacing them all changes each as if at once, and
/// nothing else.
pub proof fn matches_are_replaced_at_once(
    source: Seq<char>,
    found: Seq<(int, int)>,
    by: Seq<char>,
)
    requires
        forall|i: int|
            0 <= i < found.len() ==> char_range(
                source,
                (#[trigger] found[i]).0,
                found[i].0 + found[i].1,
            ),
        forall|i: int, j: int|
            0 <= i < j < found.len() ==> (#[trigger] found[i]).0 + found[i].1
                <= (#[trigger] found[j]).0,
    ensures
        ({
            let edits = edits_of_matches(found, by);
            &&& applied(source, edits, 0) is Ok
            &&& bytes(applied(source, edits, 0)->Ok_0) == bytes(source).subrange(
                0,
                untouched(source, edits, edits.len() as int),
            ) + woven(source, edits, edits.len() as int)
        }),
{
    let edits = edits_of_matches(found, by);
    assert(apart_downward(source, edits)) by {
        assert forall|i: int| 0 <= i < edits.len() implies char_range(
            source,
            (#[trigger] edits[i]).start,
            edits[i].end,
        ) by {
            assert(char_range(
                source,
                found[found.len() - 1 - i].0,
                found[found.len() - 1 - i].0 + found[found.len() - 1 - i].1,
            ));
        }
        assert forall|i: int| 0 < i < edits.len() implies (#[trigger] edits[i]).end <= edits[i
            - 1].start by {
            let a = found[found.len() - 1 - i];
            let b = found[found.len() - 1 - (i - 1)];
            assert(a.0 + a.1 <= b.0);
        }
    }
    batch_edits_are_simultaneous(source, edits);
}

/// Whether a request to edit what matches a text in one file can be made.
pub open spec fn complete_match(
    params: Json,
    t: Target,
    file: Seq<char>,
    wanted: Seq<char>,
    by: Seq<char>,
) -> bool {
    &&& params.text_field("file"@) == Some(file)
    &&& params.text_field("match"@) == Some(wanted)
    &&& params.text_field("replacement"@) == Some(by)
    &&& wanted.len() > 0
    &&& t.exists
    &&& t.content is Ok
}

/// The match that is meant is replaced, and nothing else of the file changes: the only one, or the
/// one that the request selects, counted from zero. Where several match and none is selected,
/// nothing changes, and each is told with its number and its line. Where none matches, and where
/// one is selected that is not there, the request is refused.
pub proof fn the_selected_match_is_replaced(
    params: Json,
    t: Target,
    found: Seq<(int, int)>,
    file: Seq<char>,
    wanted: Seq<char>,
    by: Seq<char>,
    n: int,
)
    requires
        complete_match(params, t, file, wanted, by),
        params.flag_field("replace_all"@) != Some(true),
        0 <= n < found.len() || found.len() == 0,
        found.len() <= i64::MAX,
        0 <= n < found.len() ==> char_range(
            (t.content->Ok_0)@,
            found[n].0,
            found[n].0 + found[n].1,
        ),
        found.len() <= usize::MAX,
    ensures
        ({
            let s = (t.content->Ok_0)@;
            let b = bytes(s);
            let r = match_outcome(params, t, found);
            let asked = params.unsigned_field("occurrence"@);
            &&& found.len() == 0 ==> r is Err
            &&& found.len() > 0 && (asked == Some(n as u64) || (params.field("occurrence"@) is None
                && found.len() == 1)) ==> match r {
                Ok(Matched::Edited { new_source, replacements, .. }) => replacements == 1 && bytes(
                    new_source,
                ) == b.subrange(0, found[n].0) + bytes(by) + b.subrange(
                    found[n].0 + found[n].1,
                    b.len() as int,
                ),
                _ => false,
            }
            &&& asked is Some && found.len() <= asked->0 <= i64::MAX && asked->0 <= usize::MAX
                ==> r is Err
            &&& found.len() > 1 && params.field("occurrence"@) is None ==> match r {
                Ok(Matched::Ambiguous { occurrences, .. }) => {
                    &&& occurrences.len() == found.len()
                    &&& forall|i: int|
                        0 <= i < found.len() && 0 <= found[i].0 <= b.len() ==> {
                            let p = #[trigger] occurrences[i];
                            let line = crate::edit::line_feeds(b, found[i].0);
                            p.index == i && (line < usize::MAX ==> p.line == line + 1)
                        }
                },
                _ => false,
            }
        }),
{
    let s = (t.content->Ok_0)@;
    let b = bytes(s);
    if found.len() > 0 {
        replacements_change_their_range(s, found[n].0, found[n].0 + found[n].1, by);
        lemma_word_of(n);
    }
    match params.unsigned_field("occurrence"@) {
        Some(k) => {
            if k <= usize::MAX {
                lemma_word_of(k as int);
            }
        },
        None => {},
    }
    if found.len() > 1 {
        let all = places(s, found);
        assert forall|i: int| 0 <= i < found.len() && 0 <= found[i].0 <= b.len() implies {
            let line = crate::edit::line_feeds(b, found[i].0);
            (#[trigger] all[i]).index == i && (line < usize::MAX ==> all[i].line == line + 1)
        } by {
            lemma_same_line_feeds(b, found[i].0);
        }
    }
}

proof fn lemma_word_of(n: int)
    requires
        0 <= n <= usize::MAX,
    ensures
        wrapped_word(n) == n,
{
    lemma_fundamental_div_mod_converse(n, usize::MAX + 1, 0, n);
}

proof fn lemma_same_line_feeds(b: Seq<u8>, n: int)
    ensures
        line_feeds(b, n) == crate::edit::line_feeds(b, n),
    decreases n,
{
    if 0 < n <= b.len() {
        lemma_same_line_feeds(b, n - 1);
    }
}

/// Where a request replaces all, every match is replaced, whatever is selected, and the answer
/// tells how many there were.
pub proof fn all_matches_are_replaced(
    params: Json,
    t: Target,
    found: Seq<(int, int)>,
    file: Seq<char>,
    wanted: Seq<char>,
    by: Seq<char>,
)
    requires
        complete_match(params, t, file, wanted, by),
        params.flag_field("replace_all"@) == Some(true),
        found.len() > 0,
        forall|i: int|
            0 <= i < found.len() ==> char_range(
                (t.content->Ok_0)@,
                (#[trigger] found[i]).0,
                found[i].0 + found[i].1,
            ),
        forall|i: int, j: int|
            0 <= i < j < found.len() ==> (#[trigger] found[i]).0 + found[i].1
                <= (#[trigger] found[j]).0,
    ensures
        ({
            let s = (t.content->Ok_0)@;
            match match_outcome(params, t, found) {
                Ok(Matched::Edited { new_source, replacements, .. }) => replacements == found.len()
                    && bytes(new_source) == replaced_upto(bytes(s), found, bytes(by), found.len() as int)
                    + bytes(s).subrange(found.last().0 + found.last().1, bytes(s).len() as int),
                _ => false,
            }
        }),
{
    let s = (t.content->Ok_0)@;
    matches_are_replaced_at_once(s, found, by);
    lemma_woven_upward(s, found, by, found.len() as int);
}

/// The bytes up to the end of the `n`th match, with each of these matches replaced.
pub open spec fn replaced_upto(b: Seq<u8>, found: Seq<(int, int)>, by: Seq<u8>, n: int) -> Seq<u8>
    decreases n,
{
    if n <= 0 || n > found.len() {
        Seq::empty()
    } else {
        replaced_upto(b, found, by, n - 1) + b.subrange(
            if n == 1 {
                0
            } else {
                found[n - 2].0 + found[n - 2].1
            },
            found[n - 1].0,
        ) + by
    }
}

proof fn lemma_woven_upward(s: Seq<char>, found: Seq<(int, int)>, by: Seq<char>, n: int)
    requires
        0 < n <= found.len(),
        forall|i: int|
            0 <= i < found.len() ==> char_range(s, (#[trigger] found[i]).0, found[i].0 + found[i].1),
        forall|i: int, j: int|
            0 <= i < j < found.len() ==> (#[trigger] found[i]).0 + found[i].1
                <= (#[trigger] found[j]).0,
    ensures
        ({
            let b = bytes(s);
            let edits = edits_of_matches(found, by);
            let all = found.len() as int;
            b.subrange(0, untouched(s, edits, all)) + woven(s, edits, all) == replaced_upto(
                b,
                found,
                bytes(by),
                n,
            ) + b.subrange(
                found[n - 1].0 + found[n - 1].1,
                untouched(s, edits, all - n),
            ) + woven(s, edits, all - n)
        }),
    decreases n,
{
    let b = bytes(s);
    let edits = edits_of_matches(found, by);
    let all = found.len() as int;
    let m = found[n - 1];
    assert(char_range(s, m.0, m.0 + m.1));
    assert(edits[all - n] == (EditModel { start: m.0, end: m.0 + m.1, text: by }));
    let tail = b.subrange(m.0 + m.1, untouched(s, edits, all - n)) + woven(s, edits, all - n);
    assert(woven(s, edits, all - n + 1) =~= bytes(by) + tail);
    if n == 1 {
        assert(untouched(s, edits, all) == m.0);
        assert(replaced_upto(b, found, bytes(by), 0) =~= Seq::<u8>::empty());
        assert(b.subrange(0, m.0) + (bytes(by) + tail) =~= replaced_upto(
            b,
            found,
            bytes(by),
            1,
        ) + b.subrange(m.0 + m.1, untouched(s, edits, all - n)) + woven(s, edits, all - n));
    } else {
        lemma_woven_upward(s, found, by, n - 1);
        assert(found[n - 2].0 + found[n - 2].1 <= found[n - 1].0);
        assert(untouched(s, edits, all - n + 1) == m.0);
        let before = replaced_upto(b, found, bytes(by), n - 1);
        let gap = b.subrange(found[n - 2].0 + found[n - 2].1, m.0);
        assert(before + gap + (bytes(by) + tail) =~= before + gap + bytes(by) + b.subrange(
            m.0 + m.1,
            untouched(s, edits, all - n),
        ) + woven(s, edits, all - n));
    }
}

/// Of many files exactly those are edited that can be read and hold the text; each gets every place
/// replaced, and is told under its own path with as many places as it has.
pub proof fn files_that_hold_the_text_are_edited(
    files: Seq<Named>,
    f: Named,
    wanted: Seq<char>,
    by: Seq<char>,
    write: bool,
)
    requires
        pending_in(files, wanted, by, write) is Ok,
    ensures
        ({
            let before = pending_in(files, wanted, by, write)->Ok_0;
            let r = pending_in(files.push(f), wanted, by, write);
            let held = f.content is Some && occurrence_count(f.content->0, wanted) > 0;
            &&& !held ==> r == Ok::<Seq<Pending>, RefusalModel>(before)
            &&& held && write && f.validated is Err ==> r == Err::<Seq<Pending>, RefusalModel>(
                f.validated->Err_0,
            )
            &&& held && (!write || f.validated is Ok) ==> {
                &&& r is Ok
                &&& r->Ok_0.len() == before.len() + 1
                &&& r->Ok_0.drop_last() == before
                &&& r->Ok_0.last().file == f.path
                &&& r->Ok_0.last().source == f.content->0
                &&& r->Ok_0.last().new_source == substituted(f.content->0, wanted, by)
                &&& r->Ok_0.last().count == occurrence_count(f.content->0, wanted)
                &&& write ==> r->Ok_0.last().path == f.validated->Ok_0
            }
        }),
{
    assert(files.push(f).drop_last() =~= files);
    let before = pending_in(files, wanted, by, write)->Ok_0;
    let r = pending_in(files.push(f), wanted, by, write);
    if r is Ok && r->Ok_0.len() == before.len() + 1 {
        assert(r->Ok_0.drop_last() =~= before);
    }
}

/// A path with a sign that stands for many names is one for many files.
pub proof fn signs_in_a_path_stand_for_many_files(path: Seq<char>, i: int)
    ensures
        0 <= i < path.len() && (path[i] == '*' || path[i] == '?' || path[i] == '{' || path[i] == '[')
            ==> names_many(path),
        (forall|k: int|
            0 <= k < path.len() ==> (#[trigger] path[k]) != '*' && path[k] != '?' && path[k] != '{'
                && path[k] != '[') ==> !names_many(path),
{
    if 0 <= i < path.len() {
        assert(path.contains(path[i]));
    }
}

/// An edit of many files is refused where there are none, and where none of them holds the text;
/// otherwise it is made to those that do, in the order of their paths.
pub proof fn edits_of_many_files_need_the_text(
    files: Seq<Named>,
    pattern: Seq<char>,
    wanted: Seq<char>,
    by: Seq<char>,
    write: bool,
)
    ensures
        files.len() == 0 ==> glob_edits(files, pattern, wanted, by, write) is Err,
        match glob_edits(files, pattern, wanted, by, write) {
            Ok(pending) => pending.len() > 0 && pending_in(
                sorted::<GlobFile>(files),
                wanted,
                by,
                write,
            ) == Ok::<Seq<Pending>, RefusalModel>(pending),
            Err(_) => files.len() == 0 || pending_in(
                sorted::<GlobFile>(files),
                wanted,
                by,
                write,
            ) is Err || (pending_in(sorted::<GlobFile>(files), wanted, by, write)->Ok_0).len() == 0,
        },
{
}

} // verus!
