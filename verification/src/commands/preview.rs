//! What an edit does to files, or would do.
use vstd::prelude::*;

use crate::backup::{backup_name, backups_of, stacked, with_backup, Backup, Backups};
use crate::checkpoint::{with_checkpoint, Stored};
use crate::commands::edit_match::{Pending, PendingEdit};
use crate::diff::{difference, dry_run_diff};
use crate::json::Json;
use crate::lang::{detect_language, path_lang};
use crate::models::{group_models, lemma_table_get_set, models};
use crate::syntax::{has_syntax_error, syntax_broken};
use crate::text::{owned, text2};

verus! {

/// Whether a request writes: not where it asks for a preview.
pub open spec fn is_write(params: Json) -> bool {
    params.flag_field("dry_run"@) != Some(true)
}

/// Whether a request writes: not where it asks for a preview.
pub fn writes(params: &Json) -> (r: bool)
    ensures
        r == (params.flag_field("dry_run"@) != Some(true)),
{
    match params.get_flag("dry_run") {
        Some(v) => !v,
        None => true,
    }
}

/// Whether the text of a file is well formed in the language of the file, where that can be told.
pub open spec fn well_formed(path: Seq<char>, content: Seq<char>) -> Option<bool> {
    match path_lang(path) {
        None => None,
        Some(lang) => match syntax_broken(content, lang) {
            None => None,
            Some(broken) => Some(!broken),
        },
    }
}

/// Whether the text of a file is well formed in the language of the file, where that can be told.
pub fn validate_syntax(path: &str, content: &str) -> (r: Option<bool>)
    ensures
        r == well_formed(path@, content@),
{
    match detect_language(path) {
        None => None,
        Some(lang) => told_syntax(has_syntax_error(content, lang)),
    }
}

/// What is told of the syntax of a text, where a parse said whether it has errors.
pub fn told_syntax(broken: Option<bool>) -> (r: Option<bool>)
    ensures
        r == (match broken {
            None => None,
            Some(b) => Some(!b),
        }),
{
    match broken {
        None => None,
        Some(b) => Some(!b),
    }
}

/// What an edit does.
pub enum EditEffect {
    /// Nothing: what it would change is shown.
    Preview { diff: String, syntax_valid: Option<bool> },
    /// A file is backed up under a description and written.
    Write { path: String, content: String, description: String },
}

/// The model of an `EditEffect`.
pub ghost enum Effect {
    Preview { diff: Seq<char>, syntax_valid: Option<bool> },
    Write { path: Seq<char>, content: Seq<char>, description: Seq<char> },
}

impl DeepView for EditEffect {
    type V = Effect;

    open spec fn deep_view(&self) -> Effect {
        match *self {
            EditEffect::Preview { diff, syntax_valid } => Effect::Preview {
                diff: diff@,
                syntax_valid,
            },
            EditEffect::Write { path, content, description } => Effect::Write {
                path: path@,
                content: content@,
                description: description@,
            },
        }
    }
}

/// What a request does that gives a file a new text.
pub open spec fn effect_of(
    params: Json,
    path: Seq<char>,
    source: Seq<char>,
    new_source: Seq<char>,
    description: Seq<char>,
) -> Effect {
    if is_write(params) {
        Effect::Write { path, content: new_source, description }
    } else {
        Effect::Preview {
            diff: difference(path, source, new_source),
            syntax_valid: well_formed(path, new_source),
        }
    }
}

/// What a request does that gives a file a new text.
pub fn plan_edit(
    params: &Json,
    path: &str,
    source: &str,
    new_source: &str,
    description: &str,
) -> (r: EditEffect)
    ensures
        r.deep_view() == effect_of(*params, path@, source@, new_source@, description@),
{
    if writes(params) {
        EditEffect::Write {
            path: owned(path),
            content: owned(new_source),
            description: owned(description),
        }
    } else {
        EditEffect::Preview {
            diff: dry_run_diff(path, source, new_source),
            syntax_valid: validate_syntax(path, new_source),
        }
    }
}

/// What a request does to the files that it replaces a text in.
pub open spec fn glob_effects(params: Json, pending: Seq<Pending>, wanted: Seq<char>) -> Seq<Effect> {
    pending.map_values(
        |p: Pending|
            effect_of(params, p.path, p.source, p.new_source, "glob_edit_match: "@ + wanted),
    )
}

/// What a request does to the files that it replaces a text in.
pub fn plan_glob_edits(params: &Json, pending: &Vec<PendingEdit>, wanted: &str) -> (r: Vec<
    EditEffect,
>)
    ensures
        models(r@) == glob_effects(*params, models(pending@), wanted@),
{
    broadcast use group_models;

    let ghost all = models(pending@);
    let ghost want = glob_effects(*params, all, wanted@);
    let description = text2("glob_edit_match: ", wanted);
    let mut out: Vec<EditEffect> = Vec::new();
    let mut i: usize = 0;
    while i < pending.len()
        invariant
            i <= pending.len(),
            all == models(pending@),
            want == glob_effects(*params, all, wanted@),
            description@ == "glob_edit_match: "@ + wanted@,
            models(out@) == want.take(i as int),
        decreases pending.len() - i,
    {
        let p = &pending[i];
        assert(all[i as int] == p.deep_view());
        let e = plan_edit(
            params,
            p.path.as_str(),
            p.source.as_str(),
            p.new_source.as_str(),
            description.as_str(),
        );
        let ghost before = models(out@);
        let ghost m = e.deep_view();
        out.push(e);
        assert(models(out@) == before.push(m));
        assert(want.take(i + 1) =~= want.take(i as int).push(m));
        i = i + 1;
    }
    assert(want.take(i as int) =~= want);
    out
}

/// What requests can change: files, backups and checkpoints.
#[verifier::ext_equal]
pub ghost struct Kept {
    pub files: Map<Seq<char>, Seq<char>>,
    pub backups: Backups,
    pub checkpoints: Seq<(Seq<char>, Seq<(Seq<char>, Stored)>)>,
}

/// What is kept after an edit, where a path is the key of its file: a file that is written is
/// backed up first.
pub open spec fn kept_after(k: Kept, e: Effect, now: u64) -> Kept {
    match e {
        Effect::Preview { .. } => k,
        Effect::Write { path, content, description } => Kept {
            files: k.files.insert(path, content),
            backups: with_backup(
                k.backups,
                path,
                Backup {
                    id: backup_name(k.backups.counter),
                    content: k.files[path],
                    timestamp: now,
                    description,
                },
            ),
            ..k
        },
    }
}

/// What is kept after the first `n` edits.
pub open spec fn kept_after_all(k: Kept, effects: Seq<Effect>, now: u64, n: int) -> Kept
    decreases n,
{
    if n <= 0 || n > effects.len() {
        k
    } else {
        kept_after(kept_after_all(k, effects, now, n - 1), effects[n - 1], now)
    }
}

/// What is kept once the files that a request writes are in a checkpoint.
pub open spec fn kept_in_checkpoint(k: Kept, params: Json, session: Seq<char>, cp: Stored) -> Kept {
    if is_write(params) {
        Kept { checkpoints: with_checkpoint(k.checkpoints, session, cp), ..k }
    } else {
        k
    }
}

/// A request for a preview leaves files, backups and checkpoints as they were.
pub proof fn previews_change_nothing(
    k: Kept,
    params: Json,
    path: Seq<char>,
    source: Seq<char>,
    new_source: Seq<char>,
    description: Seq<char>,
    now: u64,
)
    requires
        !is_write(params),
    ensures
        kept_after(k, effect_of(params, path, source, new_source, description), now) == k,
{
}

/// A request for a preview of replacements in many files leaves files, backups and checkpoints as
/// they were.
pub proof fn glob_previews_change_nothing(
    k: Kept,
    params: Json,
    pending: Seq<Pending>,
    wanted: Seq<char>,
    session: Seq<char>,
    cp: Stored,
    now: u64,
)
    requires
        !is_write(params),
    ensures
        kept_after_all(
            kept_in_checkpoint(k, params, session, cp),
            glob_effects(params, pending, wanted),
            now,
            pending.len() as int,
        ) == k,
{
    lemma_previews(k, glob_effects(params, pending, wanted), now, pending.len() as int);
}

proof fn lemma_previews(k: Kept, effects: Seq<Effect>, now: u64, n: int)
    requires
        0 <= n <= effects.len(),
        forall|i: int| 0 <= i < effects.len() ==> (#[trigger] effects[i]) is Preview,
    ensures
        kept_after_all(k, effects, now, n) == k,
    decreases n,
{
    if n > 0 {
        lemma_previews(k, effects, now, n - 1);
        assert(effects[n - 1] is Preview);
    }
}

/// A file that is written has its new text, no other file changes, and the latest backup holds
/// what the file was.
pub proof fn written_file_is_backed_up(
    k: Kept,
    params: Json,
    path: Seq<char>,
    source: Seq<char>,
    new_source: Seq<char>,
    description: Seq<char>,
    now: u64,
)
    requires
        is_write(params),
        k.files.dom().contains(path),
    ensures
        ({
            let after = kept_after(
                k,
                effect_of(params, path, source, new_source, description),
                now,
            );
            &&& after.files[path] == new_source
            &&& forall|p: Seq<char>|
                p != path && k.files.dom().contains(p) ==> #[trigger] after.files[p] == k.files[p]
            &&& backups_of(after.backups, path).len() > 0
            &&& backups_of(after.backups, path).last().content == k.files[path]
            &&& after.checkpoints == k.checkpoints
        }),
{
    let entry = Backup {
        id: backup_name(k.backups.counter),
        content: k.files[path],
        timestamp: now,
        description,
    };
    let stack = stacked(backups_of(k.backups, path), entry);
    lemma_table_get_set(k.backups.files, path, stack);
}

/// A request writes its file, with the new text and its description, unless it says
/// `dry_run: true`; it then shows how the texts differ and whether the new one is well formed.
pub proof fn requests_write_unless_they_ask_for_a_preview(
    params: Json,
    path: Seq<char>,
    source: Seq<char>,
    new_source: Seq<char>,
    description: Seq<char>,
)
    ensures
        params.flag_field("dry_run"@) == Some(true) ==> effect_of(
            params,
            path,
            source,
            new_source,
            description,
        ) == (Effect::Preview {
            diff: difference(path, source, new_source),
            syntax_valid: well_formed(path, new_source),
        }),
        params.flag_field("dry_run"@) != Some(true) ==> effect_of(
            params,
            path,
            source,
            new_source,
            description,
        ) == (Effect::Write { path, content: new_source, description }),
        match path_lang(path) {
            None => well_formed(path, new_source) is None,
            Some(lang) => syntax_broken(new_source, lang) is Some ==> well_formed(path, new_source)
                == Some(!syntax_broken(new_source, lang)->0),
        },
{
}

} // verus!
