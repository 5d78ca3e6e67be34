//! Replacements of the places that match a structural pattern.
use vstd::prelude::*;

use crate::ast_grep_lang::AstGrepLang;
use crate::commands::ast_scope::{
    all_files, collect_ast_files, missing_root, resolve_roots, roots_of, warnings_of, Walked,
    WalkedRoot,
};
use crate::commands::ast_search::{list_of, listed, need_lang, needed_lang};
use crate::commands::refusal::{
    need, needed, refuse, refused, verdict, Refusal, RefusalModel,
};
use crate::counts::capped;
use crate::diff::{difference, dry_run_diff};
use crate::edit::{bytes, bytes_as_text, bytes_of, text_or};
use crate::json::Json;
use crate::models::{group_models, models};
use crate::order::{in_order, lemma_sorted_in_order, sort_list, sorted, Ranked};
use crate::structural::{
    check_pattern, find_edits, pattern_edits, pattern_fault, ByteEdit, Grammar, GrepEdit,
};
use crate::text::{owned, text5, texts};

verus! {

/// A request to replace what matches a pattern.
pub struct ReplaceRequest {
    pub pattern: String,
    pub rewrite: String,
    pub lang: AstGrepLang,
    pub paths: Vec<String>,
    pub globs: Vec<String>,
    pub dry_run: bool,
}

/// The model of a `ReplaceRequest`.
pub ghost struct ReplaceAsk {
    pub pattern: Seq<char>,
    pub rewrite: Seq<char>,
    pub lang: AstGrepLang,
    pub paths: Seq<Seq<char>>,
    pub globs: Seq<Seq<char>>,
    pub dry_run: bool,
}

impl DeepView for ReplaceRequest {
    type V = ReplaceAsk;

    open spec fn deep_view(&self) -> ReplaceAsk {
        ReplaceAsk {
            pattern: self.pattern@,
            rewrite: self.rewrite@,
            lang: self.lang,
            paths: texts(self.paths@),
            globs: texts(self.globs@),
            dry_run: self.dry_run,
        }
    }
}

/// The request that the parameters make; nothing is written unless they say so.
pub open spec fn replace_ask(params: Json) -> Result<ReplaceAsk, RefusalModel> {
    match (
        needed(params, "ast_replace"@, "pattern"@),
        needed(params, "ast_replace"@, "rewrite"@),
        needed_lang(params, "ast_replace"@),
    ) {
        (Err(e), _, _) => Err(e),
        (_, Err(e), _) => Err(e),
        (_, _, Err(e)) => Err(e),
        (Ok(pattern), Ok(rewrite), Ok(lang)) => Ok(
            ReplaceAsk {
                pattern,
                rewrite,
                lang,
                paths: listed(params, "paths"@),
                globs: listed(params, "globs"@),
                dry_run: match params.flag_field("dry_run"@) {
                    Some(b) => b,
                    None => true,
                },
            },
        ),
    }
}

/// The request that the parameters make.
pub fn read_replace_request(params: &Json) -> (r: Result<ReplaceRequest, Refusal>)
    ensures
        verdict(r) == replace_ask(*params),
{
    let pattern = match need(params, "ast_replace", "pattern") {
        Ok(s) => s,
        Err(e) => {
            return Err(e);
        },
    };
    let rewrite = match need(params, "ast_replace", "rewrite") {
        Ok(s) => s,
        Err(e) => {
            return Err(e);
        },
    };
    let lang = match need_lang(params, "ast_replace") {
        Ok(l) => l,
        Err(e) => {
            return Err(e);
        },
    };
    let dry_run = match params.get_flag("dry_run") {
        Some(b) => b,
        None => true,
    };
    Ok(
        ReplaceRequest {
            pattern: owned(pattern),
            rewrite: owned(rewrite),
            lang,
            paths: list_of(params, "paths"),
            globs: list_of(params, "globs"),
            dry_run,
        },
    )
}

impl Ranked for GrepEdit {
    open spec fn before(a: ByteEdit, b: ByteEdit) -> bool {
        a.start > b.start
    }

    fn precedes(&self, other: &GrepEdit) -> (r: bool) {
        self.position > other.position
    }
}

/// The bytes with an edit made, where the edit lies inside them.
pub open spec fn edited(b: Seq<u8>, e: ByteEdit) -> Seq<u8> {
    if e.start + e.len <= b.len() {
        b.take(e.start) + e.text + b.skip(e.start + e.len)
    } else {
        b
    }
}

/// The bytes with edits made one after another.
pub open spec fn all_edited(b: Seq<u8>, edits: Seq<ByteEdit>) -> Seq<u8>
    decreases edits.len(),
{
    if edits.len() == 0 {
        b
    } else {
        edited(all_edited(b, edits.drop_last()), edits.last())
    }
}

/// A text with edits made, the last one first; the text itself where no text comes out.
pub open spec fn rewritten(source: Seq<char>, edits: Seq<ByteEdit>) -> Seq<char> {
    text_or(all_edited(bytes(source), sorted::<GrepEdit>(edits)), source)
}

fn edit_bytes(b: Vec<u8>, e: &GrepEdit) -> (r: Vec<u8>)
    ensures
        r@ == edited(b@, e.deep_view()),
{
    if e.position > b.len() || e.deleted_length > b.len() - e.position {
        return b;
    }
    let end: usize = e.position + e.deleted_length;
    let mut out: Vec<u8> = Vec::new();
    let mut i: usize = 0;
    while i < e.position
        invariant
            i <= e.position <= b@.len(),
            out@ == b@.take(i as int),
        decreases e.position - i,
    {
        out.push(b[i]);
        assert(out@ =~= b@.take(i + 1));
        i = i + 1;
    }
    let mut k: usize = 0;
    assert(out@ =~= b@.take(e.position as int) + e.inserted_text@.take(0));
    while k < e.inserted_text.len()
        invariant
            k <= e.inserted_text.len(),
            e.position <= b@.len(),
            out@ == b@.take(e.position as int) + e.inserted_text@.take(k as int),
        decreases e.inserted_text.len() - k,
    {
        out.push(e.inserted_text[k]);
        assert(out@ =~= b@.take(e.position as int) + e.inserted_text@.take(k + 1));
        k = k + 1;
    }
    let mut j: usize = end;
    assert(out@ =~= b@.take(e.position as int) + e.inserted_text@ + b@.subrange(
        end as int,
        end as int,
    ));
    while j < b.len()
        invariant
            end <= j <= b@.len(),
            e.position <= end,
            out@ == b@.take(e.position as int) + e.inserted_text@ + b@.subrange(
                end as int,
                j as int,
            ),
        decreases b.len() - j,
    {
        out.push(b[j]);
        assert(out@ =~= b@.take(e.position as int) + e.inserted_text@ + b@.subrange(
            end as int,
            j + 1,
        ));
        j = j + 1;
    }
    assert(b@.subrange(end as int, b@.len() as int) =~= b@.skip(end as int));
    out
}

/// A text with edits made.
pub fn apply_edits(source: &str, edits: Vec<GrepEdit>) -> (r: String)
    ensures
        r@ == rewritten(source@, models(edits@)),
{
    let list = sort_list(edits);
    let ghost all = models(list@);
    let mut b: Vec<u8> = bytes_of(source);
    let mut i: usize = 0;
    while i < list.len()
        invariant
            i <= list.len(),
            all == models(list@),
            b@ == all_edited(bytes(source@), all.take(i as int)),
        decreases list.len() - i,
    {
        assert(all.take(i + 1).drop_last() =~= all.take(i as int));
        assert(all[i as int] == list@[i as int].deep_view());
        b = edit_bytes(b, &list[i]);
        i = i + 1;
    }
    assert(all.take(i as int) =~= all);
    bytes_as_text(b, source)
}

/// A change of a file.
pub struct FileChange {
    pub file_path: String,
    pub original: String,
    pub new_content: String,
    pub replacement_count: usize,
}

/// The model of a `FileChange`.
pub ghost struct Change {
    pub path: Seq<char>,
    pub original: Seq<char>,
    pub content: Seq<char>,
    pub replacements: int,
}

impl DeepView for FileChange {
    type V = Change;

    open spec fn deep_view(&self) -> Change {
        Change {
            path: self.file_path@,
            original: self.original@,
            content: self.new_content@,
            replacements: self.replacement_count as int,
        }
    }
}

/// The change that edits make of a file, where there are any.
pub open spec fn change_by(path: Seq<char>, original: Seq<char>, edits: Seq<ByteEdit>) -> Option<
    Change,
> {
    if edits.len() == 0 {
        None
    } else {
        Some(
            Change {
                path,
                original,
                content: rewritten(original, edits),
                replacements: edits.len() as int,
            },
        )
    }
}

/// The change that edits make of a file, where there are any.
pub fn change_file(path: &str, original: &str, edits: Vec<GrepEdit>) -> (r: Option<FileChange>)
    ensures
        r.deep_view() == change_by(path@, original@, models(edits@)),
{
    let count = edits.len();
    assert(models(edits@).len() == count);
    if count == 0 {
        return None;
    }
    Some(
        FileChange {
            file_path: owned(path),
            original: owned(original),
            new_content: apply_edits(original, edits),
            replacement_count: count,
        },
    )
}

/// The changes of the files among the first `n` that can be read and have a match.
pub open spec fn changes_of(
    files: Seq<Seq<char>>,
    contents: Seq<Option<Seq<char>>>,
    ask: ReplaceAsk,
    n: int,
) -> Seq<Change>
    decreases n,
{
    if n <= 0 || n > files.len() {
        Seq::empty()
    } else {
        let before = changes_of(files, contents, ask, n - 1);
        match contents[n - 1] {
            None => before,
            Some(source) => match change_by(
                files[n - 1],
                source,
                pattern_edits(source, ask.lang.processed(ask.pattern), ask.rewrite, ask.lang),
            ) {
                None => before,
                Some(change) => before.push(change),
            },
        }
    }
}

/// What is to be replaced.
pub struct ReplacePlan {
    pub changes: Vec<FileChange>,
    pub files_searched: usize,
    pub no_files_matched_scope: bool,
    pub scope_warnings: Vec<String>,
    pub dry_run: bool,
}

/// The model of a `ReplacePlan`.
pub ghost struct Plan {
    pub changes: Seq<Change>,
    pub files_searched: int,
    pub no_files: bool,
    pub warnings: Seq<Seq<char>>,
    pub dry_run: bool,
}

impl DeepView for ReplacePlan {
    type V = Plan;

    open spec fn deep_view(&self) -> Plan {
        Plan {
            changes: models(self.changes@),
            files_searched: self.files_searched as int,
            no_files: self.no_files_matched_scope,
            warnings: models(self.scope_warnings@),
            dry_run: self.dry_run,
        }
    }
}

/// What a request to replace leads to. The walk of each root gave `walked`, and the files that
/// it came to hold `contents`, one for each.
pub open spec fn replace_plan(
    params: Json,
    project: Seq<char>,
    walked: Seq<Walked>,
    contents: Seq<Option<Seq<char>>>,
) -> Result<Plan, RefusalModel> {
    match replace_ask(params) {
        Err(e) => Err(e),
        Ok(ask) => match pattern_fault(ask.lang.processed(ask.pattern), ask.lang) {
            Some(why) => Err(
                refused(
                    "invalid_pattern"@,
                    "ast_replace: invalid pattern '"@ + ask.pattern + "': "@ + why
                        + ". Patterns must be complete AST nodes."@,
                ),
            ),
            None => {
                let roots = roots_of(project, ask.paths);
                match missing_root(roots, walked, 0) {
                    Some(path) => Err(
                        refused(
                            "path_not_found"@,
                            "ast_replace"@ + ": search path does not exist: "@ + path,
                        ),
                    ),
                    None => {
                        let files = all_files(walked, walked.len() as int);
                        Ok(
                            Plan {
                                changes: changes_of(files, contents, ask, files.len() as int),
                                files_searched: files.len() as int,
                                no_files: files.len() == 0,
                                warnings: warnings_of(project, roots, walked, ask.globs),
                                dry_run: ask.dry_run,
                            },
                        )
                    },
                }
            },
        },
    }
}

/// How many roots a request names.
pub open spec fn root_count(params: Json) -> nat {
    match replace_ask(params) {
        Ok(ask) => roots_of(Seq::empty(), ask.paths).len(),
        Err(_) => 0,
    }
}

fn plan_changes(files: &Vec<String>, contents: &Vec<Option<String>>, req: &ReplaceRequest) -> (r:
    Vec<FileChange>)
    requires
        contents@.len() == files@.len(),
        pattern_fault(req.lang.processed(req.pattern@), req.lang) is None,
    ensures
        models(r@) == changes_of(
            texts(files@),
            models(contents@),
            req.deep_view(),
            files@.len() as int,
        ),
{
    broadcast use group_models;

    let ready = req.lang.pre_process_pattern(req.pattern.as_str());
    let ghost fs = texts(files@);
    let ghost cs = models(contents@);
    let mut out: Vec<FileChange> = Vec::new();
    let mut i: usize = 0;
    while i < files.len()
        invariant
            i <= files.len(),
            contents@.len() == files@.len(),
            fs == texts(files@),
            cs == models(contents@),
            ready@ == req.lang.processed(req.pattern@),
            pattern_fault(ready@, req.lang) is None,
            models(out@) == changes_of(fs, cs, req.deep_view(), i as int),
        decreases files.len() - i,
    {
        assert(fs[i as int] == files@[i as int]@);
        assert(cs[i as int] == contents@[i as int].deep_view());
        match &contents[i] {
            Some(source) => {
                let edits = find_edits(
                    source.as_str(),
                    ready.as_str(),
                    req.rewrite.as_str(),
                    Grammar { lang: req.lang },
                );
                match change_file(files[i].as_str(), source.as_str(), edits) {
                    Some(change) => {
                        let ghost before = models(out@);
                        let ghost m = change.deep_view();
                        out.push(change);
                        assert(models(out@) == before.push(m));
                    },
                    None => {},
                }
            },
            None => {},
        }
        i = i + 1;
    }
    out
}

/// What a request to replace leads to. The walk of each root gave `walked`, and the files that
/// it came to hold `contents`, one for each.
pub fn handle_ast_replace(
    params: &Json,
    project_root: &str,
    walked: &Vec<WalkedRoot>,
    contents: &Vec<Option<String>>,
) -> (r: Result<ReplacePlan, Refusal>)
    requires
        replace_ask(*params) is Ok ==> walked@.len() == root_count(*params),
        contents@.len() == all_files(models(walked@), walked@.len() as int).len(),
    ensures
        verdict(r) == replace_plan(*params, project_root@, models(walked@), models(contents@)),
{
    let req = match read_replace_request(params) {
        Ok(req) => req,
        Err(e) => {
            return Err(e);
        },
    };
    let ready = req.lang.pre_process_pattern(req.pattern.as_str());
    match check_pattern(ready.as_str(), Grammar { lang: req.lang }) {
        Some(why) => {
            return Err(
                refuse(
                    "invalid_pattern",
                    text5(
                        "ast_replace: invalid pattern '",
                        req.pattern.as_str(),
                        "': ",
                        why.as_str(),
                        ". Patterns must be complete AST nodes.",
                    ),
                ),
            );
        },
        None => {},
    }
    let roots = resolve_roots(project_root, &req.paths);
    assert(models(roots@).len() == roots@.len());
    assert(models(walked@).len() == walked@.len());
    let scope = match collect_ast_files("ast_replace", project_root, &roots, walked, &req.globs) {
        Ok(scope) => scope,
        Err(e) => {
            return Err(e);
        },
    };
    assert(texts(scope.files@).len() == scope.files@.len());
    let changes = plan_changes(&scope.files, contents, &req);
    Ok(
        ReplacePlan {
            changes,
            files_searched: scope.files.len(),
            no_files_matched_scope: scope.no_files_matched_scope,
            scope_warnings: scope.scope_warnings,
            dry_run: req.dry_run,
        },
    )
}

/// What became of a change: a refused path, or the backup that was made, where one could be,
/// and why the file could not be written, where it could not.
pub enum WriteOutcome {
    Refused(Refusal),
    Tried { backup_id: Option<String>, error: Option<String> },
}

/// What is told of a change.
pub enum ReplaceEntry {
    Preview { file: String, diff: String, replacements: usize },
    Written { file: String, replacements: usize, backup_id: Option<String> },
    Failed { file: String, error: String },
}

/// The model of a `ReplaceEntry`.
pub ghost enum Told {
    Preview { file: Seq<char>, diff: Seq<char>, replacements: int },
    Written { file: Seq<char>, replacements: int, backup: Option<Seq<char>> },
    Failed { file: Seq<char>, error: Seq<char> },
}

impl DeepView for ReplaceEntry {
    type V = Told;

    open spec fn deep_view(&self) -> Told {
        match *self {
            ReplaceEntry::Preview { file, diff, replacements } => Told::Preview {
                file: file@,
                diff: diff@,
                replacements: replacements as int,
            },
            ReplaceEntry::Written { file, replacements, backup_id } => Told::Written {
                file: file@,
                replacements: replacements as int,
                backup: backup_id.deep_view(),
            },
            ReplaceEntry::Failed { file, error } => Told::Failed { file: file@, error: error@ },
        }
    }
}

/// What is told of a change that was written or not.
pub open spec fn told(change: Change, outcome: WriteOutcome) -> Result<Told, RefusalModel> {
    match outcome {
        WriteOutcome::Refused(e) => Err(e.deep_view()),
        WriteOutcome::Tried { backup_id, error } => Ok(
            match error {
                Some(why) => Told::Failed { file: change.path, error: why@ },
                None => Told::Written {
                    file: change.path,
                    replacements: change.replacements,
                    backup: backup_id.deep_view(),
                },
            },
        ),
    }
}

/// What is told of the first `n` changes; the first refused path ends all.
pub open spec fn all_told(changes: Seq<Change>, outcomes: Seq<WriteOutcome>, n: int) -> Result<
    Seq<Told>,
    RefusalModel,
>
    decreases n,
{
    if n <= 0 || n > changes.len() {
        Ok(Seq::empty())
    } else {
        match all_told(changes, outcomes, n - 1) {
            Err(e) => Err(e),
            Ok(before) => match told(changes[n - 1], outcomes[n - 1]) {
                Err(e) => Err(e),
                Ok(t) => Ok(before.push(t)),
            },
        }
    }
}

/// What is told of changes that are only shown.
pub open spec fn previews(changes: Seq<Change>) -> Seq<Told> {
    changes.map_values(
        |c: Change|
            Told::Preview {
                file: c.path,
                diff: difference(c.path, c.original, c.content),
                replacements: c.replacements,
            },
    )
}

/// How many replacements the first `n` changes hold.
pub open spec fn replacements_of(changes: Seq<Change>, n: int) -> int
    decreases n,
{
    if n <= 0 || n > changes.len() {
        0
    } else {
        replacements_of(changes, n - 1) + changes[n - 1].replacements
    }
}

/// What is told of replacements.
pub struct ReplaceReport {
    pub ok: bool,
    pub files: Vec<ReplaceEntry>,
    pub total_replacements: usize,
    pub total_files: usize,
    pub files_with_matches: usize,
    pub files_searched: usize,
    pub no_files_matched_scope: bool,
    pub scope_warnings: Vec<String>,
    pub dry_run: bool,
}

fn count_replacements(changes: &Vec<FileChange>) -> (r: usize)
    ensures
        r == capped(replacements_of(models(changes@), changes@.len() as int)),
{
    let ghost all = models(changes@);
    let mut n: usize = 0;
    let mut i: usize = 0;
    while i < changes.len()
        invariant
            i <= changes.len(),
            all == models(changes@),
            n == capped(replacements_of(all, i as int)),
        decreases changes.len() - i,
    {
        assert(all[i as int] == changes@[i as int].deep_view());
        n = n.saturating_add(changes[i].replacement_count);
        i = i + 1;
    }
    n
}

fn tell_previews(changes: &Vec<FileChange>) -> (r: Vec<ReplaceEntry>)
    ensures
        models(r@) == previews(models(changes@)),
{
    broadcast use group_models;

    let ghost want = previews(models(changes@));
    let mut out: Vec<ReplaceEntry> = Vec::new();
    let mut i: usize = 0;
    while i < changes.len()
        invariant
            i <= changes.len(),
            want == previews(models(changes@)),
            models(out@) == want.take(i as int),
        decreases changes.len() - i,
    {
        let c = &changes[i];
        assert(models(changes@)[i as int] == c.deep_view());
        let e = ReplaceEntry::Preview {
            file: owned(c.file_path.as_str()),
            diff: dry_run_diff(
                c.file_path.as_str(),
                c.original.as_str(),
                c.new_content.as_str(),
            ),
            replacements: c.replacement_count,
        };
        let ghost before = models(out@);
        let ghost m = e.deep_view();
        out.push(e);
        assert(models(out@) == before.push(m));
        assert(want.take(i + 1) =~= want.take(i as int).push(m));
        i = i + 1;
    }
    assert(want.take(i as int) =~= want);
    out
}

proof fn lemma_told_stays_refused(
    changes: Seq<Change>,
    outcomes: Seq<WriteOutcome>,
    n: int,
    m: int,
)
    requires
        0 <= n <= m <= changes.len(),
        all_told(changes, outcomes, n) is Err,
    ensures
        all_told(changes, outcomes, m) == all_told(changes, outcomes, n),
    decreases m,
{
    if n < m {
        lemma_told_stays_refused(changes, outcomes, n, m - 1);
    }
}

fn tell_outcomes(changes: &Vec<FileChange>, outcomes: Vec<WriteOutcome>) -> (r: Result<
    Vec<ReplaceEntry>,
    Refusal,
>)
    requires
        outcomes@.len() <= changes@.len(),
    ensures
        match (r, all_told(models(changes@), outcomes@, outcomes@.len() as int)) {
            (Ok(a), Ok(b)) => models(a@) == b,
            (Err(e), Err(m)) => e.deep_view() == m,
            _ => false,
        },
{
    broadcast use group_models;

    let ghost all = models(changes@);
    let ghost given = outcomes@;
    let mut rest = outcomes;
    let mut out: Vec<ReplaceEntry> = Vec::new();
    let mut i: usize = 0;
    assert(given.skip(0) =~= given);
    let count = rest.len();
    while i < count
        invariant
            i <= count,
            given == outcomes@,
            count == given.len(),
            given.len() <= changes@.len(),
            rest@ == given.skip(i as int),
            all == models(changes@),
            all_told(all, given, i as int) == Ok::<_, RefusalModel>(models(out@)),
        decreases count - i,
    {
        let c = &changes[i];
        assert(all[i as int] == c.deep_view());
        let outcome = rest.remove(0);
        assert(outcome == given[i as int]);
        assert(rest@ =~= given.skip(i + 1));
        match outcome {
            WriteOutcome::Refused(e) => {
                proof {
                    lemma_told_stays_refused(all, given, i + 1, given.len() as int);
                }
                return Err(e);
            },
            WriteOutcome::Tried { backup_id, error } => {
                let e = match error {
                    Some(why) => ReplaceEntry::Failed {
                        file: owned(c.file_path.as_str()),
                        error: why,
                    },
                    None => ReplaceEntry::Written {
                        file: owned(c.file_path.as_str()),
                        replacements: c.replacement_count,
                        backup_id,
                    },
                };
                let ghost before = models(out@);
                let ghost m = e.deep_view();
                out.push(e);
                assert(models(out@) == before.push(m));
            },
        }
        i = i + 1;
    }
    Ok(out)
}

/// Whether outcomes say what became of changes: of each, or of those up to the first refused path.
pub open spec fn outcomes_fit(changes: Seq<Change>, outcomes: Seq<WriteOutcome>) -> bool {
    outcomes.len() == changes.len() || (0 < outcomes.len() < changes.len() && outcomes.last()
        is Refused)
}

/// What is told of a plan. `outcomes` says what became of each change, up to the first refused
/// path, and is not looked at where the changes are only shown.
pub fn report_replacements(plan: ReplacePlan, outcomes: Vec<WriteOutcome>) -> (r: Result<
    ReplaceReport,
    Refusal,
>)
    requires
        plan.dry_run || outcomes_fit(models(plan.changes@), outcomes@),
    ensures
        ({
            let changes = models(plan.changes@);
            let entries = if plan.dry_run {
                Ok(previews(changes))
            } else {
                all_told(changes, outcomes@, outcomes@.len() as int)
            };
            match (r, entries) {
                (Ok(a), Ok(b)) => a.ok && models(a.files@) == b && a.total_replacements == capped(
                    replacements_of(changes, changes.len() as int),
                ) && a.total_files == changes.len() && a.files_with_matches == changes.len()
                    && a.files_searched == plan.files_searched && a.no_files_matched_scope
                    == plan.no_files_matched_scope && a.scope_warnings == plan.scope_warnings
                    && a.dry_run == plan.dry_run,
                (Err(e), Err(m)) => e.deep_view() == m,
                _ => false,
            }
        }),
{
    assert(models(plan.changes@).len() == plan.changes@.len());
    let total_replacements = count_replacements(&plan.changes);
    let files = if plan.dry_run {
        tell_previews(&plan.changes)
    } else {
        match tell_outcomes(&plan.changes, outcomes) {
            Ok(list) => list,
            Err(e) => {
                return Err(e);
            },
        }
    };
    Ok(
        ReplaceReport {
            ok: true,
            files,
            total_replacements,
            total_files: plan.changes.len(),
            files_with_matches: plan.changes.len(),
            files_searched: plan.files_searched,
            no_files_matched_scope: plan.no_files_matched_scope,
            scope_warnings: plan.scope_warnings,
            dry_run: plan.dry_run,
        },
    )
}

/// Whether edits lie apart inside `len` bytes, the last one first.
pub open spec fn apart_backward(edits: Seq<ByteEdit>, len: int) -> bool {
    &&& forall|i: int| 0 <= i < edits.len() ==> 0 <= (#[trigger] edits[i]).start && edits[i].len >= 0
    &&& edits.len() > 0 ==> edits[0].start + edits[0].len <= len
    &&& forall|i: int, j: int|
        0 <= i < j < edits.len() ==> (#[trigger] edits[j]).start + edits[j].len <= (
        #[trigger] edits[i]).start
}

/// The bytes between edits that lie apart, the last one first: each edit's text stands in its
/// place, and what lies before the first of them in the text is as it was.
pub open spec fn woven_back(b: Seq<u8>, edits: Seq<ByteEdit>) -> Seq<u8>
    decreases edits.len(),
{
    if edits.len() == 0 {
        b
    } else {
        let e = edits.first();
        let below = woven_back(b.take(e.start), edits.drop_first());
        below + e.text + b.skip(e.start + e.len)
    }
}

proof fn lemma_edit_within(b: Seq<u8>, tail: Seq<u8>, edits: Seq<ByteEdit>)
    requires
        apart_backward(edits, b.len() as int),
    ensures
        all_edited(b + tail, edits) == all_edited(b, edits) + tail,
        edits.len() > 0 ==> all_edited(b, edits).len() >= edits.last().start && all_edited(
            b,
            edits,
        ).take(edits.last().start) == b.take(edits.last().start),
        edits.len() == 0 ==> all_edited(b, edits) == b,
    decreases edits.len(),
{
    if edits.len() > 0 {
        let front = edits.drop_last();
        let e = edits.last();
        assert forall|i: int| 0 <= i < front.len() implies 0 <= (#[trigger] front[i]).start
            && front[i].len >= 0 by {
            assert(edits[i].start >= 0);
        }
        lemma_edit_within(b, tail, front);
        let c = all_edited(b, front);
        if front.len() > 0 {
            let last = front.last();
            assert(e.start + e.len <= last.start) by {
                assert(edits[edits.len() - 2] == last);
            }
            assert(c.take(last.start) == b.take(last.start));
            assert(c.take(e.start) =~= c.take(last.start).take(e.start));
            assert(b.take(e.start) =~= b.take(last.start).take(e.start));
        } else {
            assert(edits[0] == e);
            assert(c == b);
        }
        assert(c.len() >= e.start + e.len);
        assert((c + tail).take(e.start) =~= c.take(e.start));
        assert((c + tail).skip(e.start + e.len) =~= c.skip(e.start + e.len) + tail);
        assert(edited(c + tail, e) =~= edited(c, e) + tail);
        assert(edited(c, e).take(e.start) =~= b.take(e.start));
    }
}

proof fn lemma_edited_front(b: Seq<u8>, edits: Seq<ByteEdit>)
    requires
        edits.len() > 0,
    ensures
        all_edited(b, edits) == all_edited(edited(b, edits.first()), edits.drop_first()),
    decreases edits.len(),
{
    if edits.len() == 1 {
        assert(edits.drop_last() =~= Seq::<ByteEdit>::empty());
        assert(edits.drop_first() =~= Seq::<ByteEdit>::empty());
        assert(all_edited(b, edits.drop_last()) == b);
    } else {
        lemma_edited_front(b, edits.drop_last());
        assert(edits.drop_last().drop_first() =~= edits.drop_first().drop_last());
        assert(edits.drop_last().first() == edits.first());
    }
}

/// Edits that lie apart are made as if all at once: each text stands in the place of what it
/// replaces, and every byte between them stays.
pub proof fn replacements_keep_the_rest(b: Seq<u8>, edits: Seq<ByteEdit>)
    requires
        apart_backward(edits, b.len() as int),
    ensures
        all_edited(b, edits) == woven_back(b, edits),
    decreases edits.len(),
{
    if edits.len() > 0 {
        let e = edits.first();
        let rest = edits.drop_first();
        let low = b.take(e.start);
        let tail = e.text + b.skip(e.start + e.len);
        assert forall|i: int| 0 <= i < rest.len() implies 0 <= (#[trigger] rest[i]).start
            && rest[i].len >= 0 by {
            assert(edits[i + 1].start >= 0);
        }
        assert(rest.len() > 0 ==> rest[0].start + rest[0].len <= low.len()) by {
            if rest.len() > 0 {
                assert(edits[1].start + edits[1].len <= edits[0].start);
            }
        }
        lemma_edited_front(b, edits);
        assert(edited(b, e) =~= low + tail);
        lemma_edit_within(low, tail, rest);
        replacements_keep_the_rest(low, rest);
        assert(woven_back(low, rest) + tail =~= woven_back(low, rest) + e.text + b.skip(
            e.start + e.len,
        ));
    }
}

/// The edits of a file are made from its end to its start.
pub proof fn edits_run_backward(edits: Seq<ByteEdit>)
    ensures
        in_order::<GrepEdit>(sorted::<GrepEdit>(edits)),
{
    lemma_sorted_in_order::<GrepEdit>(edits);
}

proof fn lemma_changes_within(
    files: Seq<Seq<char>>,
    contents: Seq<Option<Seq<char>>>,
    ask: ReplaceAsk,
    n: int,
)
    requires
        0 <= n,
    ensures
        changes_of(files, contents, ask, n).len() <= n,
    decreases n,
{
    if n > 0 {
        lemma_changes_within(files, contents, ask, n - 1);
    }
}

/// Where a request does not say otherwise, replacements are only shown, one entry for each file
/// with a match; there are not more of these than files that were searched.
pub proof fn replacements_are_shown_by_default(
    params: Json,
    project: Seq<char>,
    walked: Seq<Walked>,
    contents: Seq<Option<Seq<char>>>,
)
    requires
        replace_plan(params, project, walked, contents) is Ok,
        params.flag_field("dry_run"@) != Some(false),
    ensures
        ({
            let plan = replace_plan(params, project, walked, contents)->Ok_0;
            &&& plan.dry_run
            &&& previews(plan.changes).len() == plan.changes.len()
            &&& forall|i: int|
                0 <= i < plan.changes.len() ==> (#[trigger] previews(plan.changes)[i]) is Preview
            &&& plan.changes.len() <= plan.files_searched
        }),
{
    let ask = replace_ask(params)->Ok_0;
    let files = all_files(walked, walked.len() as int);
    lemma_changes_within(files, contents, ask, files.len() as int);
}

/// An edit puts its text in the place of the bytes that it names and changes no others.
pub proof fn single_edits_change_their_bytes(b: Seq<u8>, e: ByteEdit)
    requires
        0 <= e.start,
        0 <= e.len,
        e.start + e.len <= b.len(),
    ensures
        all_edited(b, seq![e]) == b.subrange(0, e.start) + e.text + b.subrange(
            e.start + e.len,
            b.len() as int,
        ),
{
    reveal_with_fuel(all_edited, 2);
    assert(seq![e].drop_last() =~= Seq::<ByteEdit>::empty());
    assert(b.take(e.start) =~= b.subrange(0, e.start));
    assert(b.skip(e.start + e.len) =~= b.subrange(e.start + e.len, b.len() as int));
}

/// A file is changed where it can be read and the pattern matches in it, by all edits of its
/// matches, and is told by its path with their number.
pub proof fn files_with_matches_are_changed(
    files: Seq<Seq<char>>,
    contents: Seq<Option<Seq<char>>>,
    ask: ReplaceAsk,
    n: int,
)
    requires
        0 < n <= files.len(),
    ensures
        ({
            let before = changes_of(files, contents, ask, n - 1);
            let now = changes_of(files, contents, ask, n);
            let source = contents[n - 1]->0;
            let edits = pattern_edits(
                source,
                ask.lang.processed(ask.pattern),
                ask.rewrite,
                ask.lang,
            );
            &&& contents[n - 1] is None || edits.len() == 0 ==> now == before
            &&& contents[n - 1] is Some && edits.len() > 0 ==> now.len() == before.len() + 1
                && now.drop_last() == before && now.last().path == files[n - 1]
                && now.last().original == source && now.last().replacements == edits.len()
                && now.last().content == rewritten(source, edits)
        }),
{
    let before = changes_of(files, contents, ask, n - 1);
    let now = changes_of(files, contents, ask, n);
    if now.len() == before.len() + 1 {
        assert(now.drop_last() =~= before);
    }
}

/// A change that was written is told with its replacements and its backup, one that could not be
/// written with why, and a path that is refused refuses the request.
pub proof fn changes_are_told_as_they_went(change: Change, outcome: WriteOutcome)
    ensures
        match outcome {
            WriteOutcome::Refused(e) => told(change, outcome) is Err,
            WriteOutcome::Tried { backup_id, error } => match told(change, outcome) {
                Ok(Told::Written { file, replacements, backup }) => error is None && file
                    == change.path && replacements == change.replacements && backup
                    == backup_id.deep_view(),
                Ok(Told::Failed { file, error: why }) => error is Some && file == change.path
                    && why == error->0@,
                _ => false,
            },
        },
{
}

/// A request to replace names a pattern, a rewrite and a language, and is refused without them;
/// files are written only where it says `dry_run: false`.
pub proof fn replace_requests_are_taken_as_written(params: Json)
    ensures
        match replace_ask(params) {
            Ok(ask) => params.text_field("pattern"@) == Some(ask.pattern) && params.text_field(
                "rewrite"@,
            ) == Some(ask.rewrite) && needed_lang(params, "ast_replace"@) == Ok::<
                AstGrepLang,
                RefusalModel,
            >(ask.lang) && ask.paths == listed(params, "paths"@) && ask.globs == listed(
                params,
                "globs"@,
            ) && (ask.dry_run <==> params.flag_field("dry_run"@) != Some(false)),
            Err(_) => params.text_field("pattern"@) is None || params.text_field("rewrite"@) is None
                || needed_lang(params, "ast_replace"@) is Err,
        },
{
}

/// Changes are told one by one, in order, and a path that is refused refuses them all; the
/// replacements of all changes are added up.
pub proof fn changes_are_told_in_order(
    changes: Seq<Change>,
    outcomes: Seq<WriteOutcome>,
    n: int,
    i: int,
)
    requires
        0 <= n <= changes.len(),
    ensures
        match all_told(changes, outcomes, n) {
            Ok(list) => list.len() == n && (0 <= i < n ==> told(changes[i], outcomes[i]) == Ok::<
                Told,
                RefusalModel,
            >(list[i])),
            Err(e) => exists|k: int|
                0 <= k < n && told(#[trigger] changes[k], outcomes[k]) == Err::<Told, RefusalModel>(
                    e,
                ),
        },
        n > 0 ==> replacements_of(changes, n) == replacements_of(changes, n - 1) + changes[n
            - 1].replacements,
        replacements_of(changes, 0) == 0,
    decreases n,
{
    if n > 0 {
        changes_are_told_in_order(changes, outcomes, n - 1, i);
        match all_told(changes, outcomes, n) {
            Ok(list) => {},
            Err(e) => {
                if all_told(changes, outcomes, n - 1) is Ok {
                    assert(told(changes[n - 1], outcomes[n - 1]) == Err::<Told, RefusalModel>(e));
                }
            },
        }
    }
}

} // verus!
