//! The undo store: for each file a bounded stack of earlier contents.
use vstd::prelude::*;

use crate::error::{outcome, AftError, Fault};
use crate::models::{
    find_key, get_entry, group_models, key_index, lemma_key_index, lemma_table_get_remove,
    lemma_table_get_remove_other, lemma_table_get_set, lemma_table_get_set_other, lemma_unique_keys,
    models, table_get, table_remove, table_set, unique_keys, Entry,
};
use crate::text::{decimal, decimal_text, owned, text2, texts};

verus! {

/// How many backups of one file are kept.
pub const MAX_UNDO_DEPTH: usize = 20;

/// One backup of a file.
#[derive(Debug, Clone)]
pub struct BackupEntry {
    pub backup_id: String,
    pub content: String,
    pub timestamp: u64,
    pub description: String,
}

/// The model of a `BackupEntry`.
pub ghost struct Backup {
    pub id: Seq<char>,
    pub content: Seq<char>,
    pub timestamp: u64,
    pub description: Seq<char>,
}

impl DeepView for BackupEntry {
    type V = Backup;

    open spec fn deep_view(&self) -> Backup {
        Backup {
            id: self.backup_id@,
            content: self.content@,
            timestamp: self.timestamp,
            description: self.description@,
        }
    }
}

/// The backups of one file, oldest first.
pub struct BackupStack {
    items: Vec<BackupEntry>,
}

impl DeepView for BackupStack {
    type V = Seq<Backup>;

    closed spec fn deep_view(&self) -> Seq<Backup> {
        models(self.items@)
    }
}

/// Per-file undo store. A file is known by its key, the canonical form of its path
/// where it has one; what it maps to is ordered oldest first.
pub struct BackupStore {
    entries: Vec<Entry<BackupStack>>,
    counter: u64,
}

/// The model of a `BackupStore`.
#[verifier::ext_equal]
pub ghost struct Backups {
    pub files: Seq<(Seq<char>, Seq<Backup>)>,
    pub counter: u64,
}

impl View for BackupStore {
    type V = Backups;

    closed spec fn view(&self) -> Backups {
        Backups { files: models(self.entries@), counter: self.counter }
    }
}

/// The name of the backup with a number.
pub open spec fn backup_name(n: u64) -> Seq<char> {
    "backup-"@ + decimal(n as nat)
}

/// The backups kept under a key, oldest first.
pub open spec fn backups_of(s: Backups, key: Seq<char>) -> Seq<Backup> {
    match table_get(s.files, key) {
        Some(stack) => stack,
        None => Seq::empty(),
    }
}

/// A full stack loses its oldest entry before it takes another.
pub open spec fn stacked(stack: Seq<Backup>, entry: Backup) -> Seq<Backup> {
    if stack.len() >= MAX_UNDO_DEPTH {
        stack.remove(0).push(entry)
    } else {
        stack.push(entry)
    }
}

/// Every tracked file has at least one backup and at most `MAX_UNDO_DEPTH`, and no key
/// is held twice.
pub open spec fn sound(s: Backups) -> bool {
    &&& unique_keys(s.files)
    &&& forall|i: int|
        0 <= i < s.files.len() ==> 1 <= (#[trigger] s.files[i]).1.len() <= MAX_UNDO_DEPTH
}

/// The number after `n`, with the largest one followed by zero.
pub open spec fn next_number(n: u64) -> u64 {
    if n == u64::MAX {
        0
    } else {
        (n + 1) as u64
    }
}

/// The store after a backup.
pub open spec fn with_backup(s: Backups, key: Seq<char>, entry: Backup) -> Backups {
    Backups {
        files: table_set(s.files, key, stacked(backups_of(s, key), entry)),
        counter: next_number(s.counter),
    }
}

/// The store after its latest backup under a key has been taken.
pub open spec fn without_latest(s: Backups, key: Seq<char>) -> Backups {
    let stack = backups_of(s, key);
    if stack.len() == 0 {
        s
    } else if stack.len() == 1 {
        Backups { files: table_remove(s.files, key), ..s }
    } else {
        Backups { files: table_set(s.files, key, stack.drop_last()), ..s }
    }
}

/// A copy of a backup.
fn copy_backup(e: &BackupEntry) -> (r: BackupEntry)
    ensures
        r.deep_view() == e.deep_view(),
{
    BackupEntry {
        backup_id: owned(e.backup_id.as_str()),
        content: owned(e.content.as_str()),
        timestamp: e.timestamp,
        description: owned(e.description.as_str()),
    }
}

impl BackupStore {
    /// A store without backups.
    pub fn new() -> (r: Self)
        ensures
            r@ == (Backups { files: Seq::empty(), counter: 0 }),
            sound(r@),
    {
        broadcast use group_models;

        BackupStore { entries: Vec::new(), counter: 0 }
    }

    /// Keeps `content`, the file's present content, as its latest backup and returns the
    /// backup's name. `content` is `None` where the file cannot be read, which is an
    /// error and changes nothing.
    pub fn snapshot(
        &mut self,
        path: &str,
        key: &str,
        content: Option<String>,
        description: &str,
        now: u64,
    ) -> (r: Result<String, AftError>)
        ensures
            match content {
                Some(text) => {
                    let name = backup_name(old(self)@.counter);
                    &&& r is Ok
                    &&& (r->Ok_0)@ == name
                    &&& final(self)@ == with_backup(
                        old(self)@,
                        key@,
                        Backup {
                            id: name,
                            content: text@,
                            timestamp: now,
                            description: description@,
                        },
                    )
                },
                None => {
                    &&& r is Err
                    &&& (r->Err_0).deep_view() == (Fault::FileNotFound { path: path@ })
                    &&& final(self)@ == old(self)@
                },
            },
            sound(old(self)@) ==> sound(final(self)@),
    {
        broadcast use group_models;

        let content = match content {
            Some(c) => c,
            None => {
                return Err(AftError::FileNotFound { path: owned(path) });
            },
        };
        let ghost before = self@;
        let id = text2("backup-", decimal_text(self.counter).as_str());
        self.counter = self.counter.wrapping_add(1);
        let entry = BackupEntry {
            backup_id: owned(id.as_str()),
            content,
            timestamp: now,
            description: owned(description),
        };
        let ghost m = entry.deep_view();
        proof {
            lemma_key_index(before.files, key@);
            lemma_unique_keys_if(before.files, key@, stacked(backups_of(before, key@), m));
        }
        match find_key(&self.entries, key) {
            Some(i) => {
                let mut e = self.entries.remove(i);
                let ghost was = models(e.value.items@);
                assert(was == before.files[i as int].1);
                if e.value.items.len() >= MAX_UNDO_DEPTH {
                    let _oldest = e.value.items.remove(0);
                }
                e.value.items.push(entry);
                assert(models(e.value.items@) == stacked(was, m));
                let ghost em = e.deep_view();
                let ghost rest = self.entries@;
                self.entries.insert(i, e);
                assert(models(self.entries@) =~= before.files.update(i as int, em));
            },
            None => {
                let mut items: Vec<BackupEntry> = Vec::new();
                items.push(entry);
                assert(models(items@) =~= stacked(Seq::<Backup>::empty(), m));
                self.entries.push(Entry { key: owned(key), value: BackupStack { items } });
            },
        }
        Ok(id)
    }

    /// Takes the latest backup of a file out of the store; its content is to be written
    /// back. A file without backups has nothing to undo.
    pub fn restore_latest(&mut self, path: &str, key: &str) -> (r: Result<BackupEntry, AftError>)
        requires
            sound(old(self)@),
        ensures
            final(self)@ == without_latest(old(self)@, key@),
            sound(final(self)@),
            outcome(r) == (if backups_of(old(self)@, key@).len() == 0 {
                Err::<Backup, Fault>(Fault::NoUndoHistory { path: path@ })
            } else {
                Ok(backups_of(old(self)@, key@).last())
            }),
    {
        broadcast use group_models;

        let ghost before = self@;
        proof {
            lemma_key_index(before.files, key@);
            lemma_unique_keys_if(before.files, key@, backups_of(before, key@).drop_last());
        }
        match find_key(&self.entries, key) {
            Some(i) => {
                let mut e = self.entries.remove(i);
                let ghost was = models(e.value.items@);
                assert(was == before.files[i as int].1);
                let last = e.value.items.pop().unwrap();
                assert(models(e.value.items@) =~= was.drop_last());
                if e.value.items.len() > 0 {
                    let ghost em = e.deep_view();
                    self.entries.insert(i, e);
                    assert(models(self.entries@) =~= before.files.update(i as int, em));
                } else {
                    assert(models(self.entries@) =~= before.files.remove(i as int));
                }
                Ok(last)
            },
            None => Err(AftError::NoUndoHistory { path: owned(path) }),
        }
    }

    /// The backups of a file, oldest first.
    pub fn history(&self, key: &str) -> (r: Vec<BackupEntry>)
        ensures
            models(r@) == backups_of(self@, key@),
    {
        broadcast use group_models;

        match get_entry(&self.entries, key) {
            Some(stack) => {
                let mut out: Vec<BackupEntry> = Vec::new();
                let mut i: usize = 0;
                while i < stack.items.len()
                    invariant
                        i <= stack.items.len(),
                        models(out@) == models(stack.items@).take(i as int),
                    decreases stack.items.len() - i,
                {
                    let c = copy_backup(&stack.items[i]);
                    let ghost before = models(out@);
                    let ghost m = c.deep_view();
                    out.push(c);
                    assert(models(out@) == before.push(m));
                    assert(models(stack.items@).take(i + 1) =~= models(stack.items@).take(
                        i as int,
                    ).push(m));
                    i = i + 1;
                }
                assert(models(stack.items@).take(i as int) =~= models(stack.items@));
                out
            },
            None => Vec::new(),
        }
    }

    /// The keys of the files with at least one backup.
    pub fn tracked_files(&self) -> (r: Vec<String>)
        ensures
            texts(r@) == keys(self@),
    {
        let mut out: Vec<String> = Vec::new();
        let mut i: usize = 0;
        assert(texts(out@) =~= keys(self@).take(0));
        while i < self.entries.len()
            invariant
                i <= self.entries.len(),
                keys(self@).len() == self.entries.len(),
                texts(out@) == keys(self@).take(i as int),
            decreases self.entries.len() - i,
        {
            let ghost before = texts(out@);
            assert(keys(self@)[i as int] == self.entries@[i as int].key@);
            out.push(owned(self.entries[i].key.as_str()));
            assert(texts(out@) =~= before.push(self.entries@[i as int].key@));
            assert(keys(self@).take(i + 1) =~= keys(self@).take(i as int).push(
                keys(self@)[i as int],
            ));
            i = i + 1;
        }
        assert(keys(self@).take(i as int) =~= keys(self@));
        out
    }
}

/// The keys of the files with at least one backup.
pub open spec fn keys(s: Backups) -> Seq<Seq<char>> {
    Seq::new(s.files.len(), |i: int| s.files[i].0)
}

proof fn lemma_unique_keys_if<V>(t: Seq<(Seq<char>, V)>, key: Seq<char>, value: V)
    ensures
        unique_keys(t) ==> unique_keys(table_set(t, key, value)) && unique_keys(
            table_remove(t, key),
        ),
{
    if unique_keys(t) {
        lemma_unique_keys(t, key, value);
    }
}

/// What a backup keeps is what the next undo gives back, and that undo leaves the file's
/// earlier backups as they were, but for one that had to make room.
pub proof fn undo_gives_back_the_backup(s: Backups, key: Seq<char>, entry: Backup)
    requires
        sound(s),
    ensures
        backups_of(with_backup(s, key, entry), key).last() == entry,
        backups_of(without_latest(with_backup(s, key, entry), key), key) == (if backups_of(
            s,
            key,
        ).len() >= MAX_UNDO_DEPTH {
            backups_of(s, key).remove(0)
        } else {
            backups_of(s, key)
        }),
{
    let one = stacked(backups_of(s, key), entry);
    let two = with_backup(s, key, entry);
    lemma_key_index(s.files, key);
    lemma_table_get_set(s.files, key, one);
    lemma_unique_keys(s.files, key, one);
    if one.len() == 1 {
        lemma_table_get_remove(two.files, key);
    } else {
        lemma_table_get_set(two.files, key, one.drop_last());
    }
    assert(one.drop_last() =~= (if backups_of(s, key).len() >= MAX_UNDO_DEPTH {
        backups_of(s, key).remove(0)
    } else {
        backups_of(s, key)
    }));
}

/// A backup or an undo of one file changes nothing of another.
pub proof fn files_are_independent(s: Backups, key: Seq<char>, entry: Backup, other: Seq<char>)
    requires
        other != key,
    ensures
        backups_of(with_backup(s, key, entry), other) == backups_of(s, other),
        backups_of(without_latest(s, key), other) == backups_of(s, other),
{
    lemma_table_get_set_other(s.files, key, stacked(backups_of(s, key), entry), other);
    lemma_table_get_set_other(s.files, key, backups_of(s, key).drop_last(), other);
    lemma_table_get_remove_other(s.files, key, other);
}

/// A file is tracked if and only if it has a backup.
pub proof fn tracked_files_have_backups(s: Backups, key: Seq<char>)
    requires
        sound(s),
    ensures
        keys(s).contains(key) <==> backups_of(s, key).len() > 0,
{
    lemma_key_index(s.files, key);
    let i = key_index(s.files, key);
    if i < s.files.len() {
        assert(keys(s)[i] == key);
        assert(1 <= s.files[i].1.len());
    } else if keys(s).contains(key) {
        let k = choose|k: int| 0 <= k < keys(s).len() && keys(s)[k] == key;
        assert(s.files[k].0 == key);
    }
}

/// The store after backups, each under its key, one after the other.
pub open spec fn with_backups(s: Backups, taken: Seq<(Seq<char>, Backup)>) -> Backups
    decreases taken.len(),
{
    if taken.len() == 0 {
        s
    } else {
        with_backup(with_backups(s, taken.drop_last()), taken.last().0, taken.last().1)
    }
}

/// The backups that were taken under a key, in their order.
pub open spec fn taken_of(taken: Seq<(Seq<char>, Backup)>, key: Seq<char>) -> Seq<Backup>
    decreases taken.len(),
{
    if taken.len() == 0 {
        Seq::empty()
    } else if taken.last().0 == key {
        taken_of(taken.drop_last(), key).push(taken.last().1)
    } else {
        taken_of(taken.drop_last(), key)
    }
}

/// The latest backups of a list, `MAX_UNDO_DEPTH` at most, in their order.
pub open spec fn latest_backups(all: Seq<Backup>) -> Seq<Backup> {
    if all.len() <= MAX_UNDO_DEPTH {
        all
    } else {
        all.skip(all.len() - MAX_UNDO_DEPTH)
    }
}

/// However many backups are taken, of one file or of several, the history of a file holds the
/// latest `MAX_UNDO_DEPTH` of those that it held and that were taken of it, oldest first; all of
/// them where they are no more.
pub proof fn history_holds_the_latest_backups(
    s: Backups,
    taken: Seq<(Seq<char>, Backup)>,
    key: Seq<char>,
)
    requires
        sound(s),
    ensures
        backups_of(with_backups(s, taken), key) == latest_backups(
            backups_of(s, key) + taken_of(taken, key),
        ),
        sound(with_backups(s, taken)),
    decreases taken.len(),
{
    let held = backups_of(s, key);
    if taken.len() == 0 {
        lemma_key_index(s.files, key);
        assert(held.len() <= MAX_UNDO_DEPTH);
        assert(held + taken_of(taken, key) =~= held);
    } else {
        let less = taken.drop_last();
        let before = with_backups(s, less);
        let (last, entry) = taken.last();
        let one = stacked(backups_of(before, last), entry);
        history_holds_the_latest_backups(s, less, key);
        lemma_key_index(before.files, last);
        lemma_unique_keys(before.files, last, one);
        if last == key {
            lemma_table_get_set(before.files, key, one);
            let all = held + taken_of(less, key);
            assert(held + taken_of(taken, key) =~= all.push(entry));
            assert(one =~= latest_backups(all.push(entry)));
        } else {
            files_are_independent(before, last, entry, key);
        }
    }
}

/// Twenty backups of a file are kept at most; a further one takes the place of the oldest.
pub proof fn twenty_backups_are_kept(stack: Seq<Backup>, entry: Backup)
    requires
        stack.len() <= 20,
    ensures
        stacked(stack, entry).len() <= 20,
        stacked(stack, entry).last() == entry,
        stack.len() < 20 ==> stacked(stack, entry).drop_last() == stack,
        stack.len() == 20 ==> stacked(stack, entry).drop_last() == stack.skip(1),
{
    if stack.len() < 20 {
        assert(stacked(stack, entry).drop_last() =~= stack);
    } else {
        assert(stacked(stack, entry).drop_last() =~= stack.skip(1));
    }
}

} // verus!
