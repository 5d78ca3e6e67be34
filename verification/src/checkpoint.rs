//! Checkpoints: named snapshots of many files, kept apart by session.
use vstd::prelude::*;

use crate::error::{outcome, AftError, Fault};
use crate::models::{
    find_key, get_entry, group_models, key_index, lemma_key_index, lemma_key_index_is,
    lemma_table_get_remove, lemma_table_get_remove_other, lemma_table_get_set,
    lemma_table_get_set_other, lemma_unique_keys, models, set_entry, table_get, table_remove,
    table_set, unique_keys, Entry,
};
use crate::text::{owned, text3, texts};

verus! {

/// What is told of a checkpoint. `skipped` pairs the paths that could not be read with
/// the reason; only the creation of a checkpoint fills it.
#[derive(Debug, Clone)]
pub struct CheckpointInfo {
    pub name: String,
    pub file_count: usize,
    pub created_at: u64,
    pub skipped: Vec<(String, String)>,
}

/// The model of a `CheckpointInfo`.
#[verifier::ext_equal]
pub ghost struct Info {
    pub name: Seq<char>,
    pub file_count: nat,
    pub created_at: u64,
    pub skipped: Seq<(Seq<char>, Seq<char>)>,
}

impl DeepView for CheckpointInfo {
    type V = Info;

    open spec fn deep_view(&self) -> Info {
        Info {
            name: self.name@,
            file_count: self.file_count as nat,
            created_at: self.created_at,
            skipped: models(self.skipped@),
        }
    }
}

/// A stored checkpoint.
pub struct Checkpoint {
    name: String,
    file_contents: Vec<Entry<String>>,
    created_at: u64,
}

/// The model of a `Checkpoint`: the contents of files by their paths.
#[verifier::ext_equal]
pub ghost struct Stored {
    pub name: Seq<char>,
    pub files: Seq<(Seq<char>, Seq<char>)>,
    pub created_at: u64,
}

impl DeepView for Checkpoint {
    type V = Stored;

    closed spec fn deep_view(&self) -> Stored {
        Stored {
            name: self.name@,
            files: models(self.file_contents@),
            created_at: self.created_at,
        }
    }
}

/// The checkpoints of one session, by name.
pub struct SessionCheckpoints {
    named: Vec<Entry<Checkpoint>>,
}

impl DeepView for SessionCheckpoints {
    type V = Seq<(Seq<char>, Stored)>;

    closed spec fn deep_view(&self) -> Seq<(Seq<char>, Stored)> {
        models(self.named@)
    }
}

/// The checkpoints of all sessions. Two sessions can each have a checkpoint of one name,
/// and neither sees the other's.
pub struct CheckpointStore {
    sessions: Vec<Entry<SessionCheckpoints>>,
}

impl View for CheckpointStore {
    type V = Seq<(Seq<char>, Seq<(Seq<char>, Stored)>)>;

    closed spec fn view(&self) -> Seq<(Seq<char>, Seq<(Seq<char>, Stored)>)> {
        models(self.sessions@)
    }
}

/// What reading one file gave: its content, or why it could not be read.
pub struct FileRead {
    pub path: String,
    pub content: Result<String, String>,
}

/// The model of a `FileRead`.
pub ghost struct Read {
    pub path: Seq<char>,
    pub content: Result<Seq<char>, Seq<char>>,
}

impl DeepView for FileRead {
    type V = Read;

    open spec fn deep_view(&self) -> Read {
        Read {
            path: self.path@,
            content: match self.content {
                Ok(text) => Ok(text@),
                Err(why) => Err(why@),
            },
        }
    }
}

/// A checkpoint to put back: the files to write, and what to tell once they are written.
pub struct Restored {
    pub info: CheckpointInfo,
    pub writes: Vec<Entry<String>>,
}

/// The checkpoints of a session.
pub open spec fn session_checkpoints(
    s: Seq<(Seq<char>, Seq<(Seq<char>, Stored)>)>,
    session: Seq<char>,
) -> Seq<(Seq<char>, Stored)> {
    match table_get(s, session) {
        Some(named) => named,
        None => Seq::empty(),
    }
}

/// The checkpoint of a session with a name.
pub open spec fn checkpoint_of(
    s: Seq<(Seq<char>, Seq<(Seq<char>, Stored)>)>,
    session: Seq<char>,
    name: Seq<char>,
) -> Option<Stored> {
    table_get(session_checkpoints(s, session), name)
}

/// Whether every checkpoint is held under its name.
pub open spec fn under_names(t: Seq<(Seq<char>, Stored)>) -> bool {
    forall|i: int| 0 <= i < t.len() ==> (#[trigger] t[i]).1.name == t[i].0
}

/// No session, and no name within a session, is held twice, every session that is held has a
/// checkpoint, and every checkpoint is held under its name.
pub open spec fn sound(s: Seq<(Seq<char>, Seq<(Seq<char>, Stored)>)>) -> bool {
    &&& unique_keys(s)
    &&& forall|i: int|
        0 <= i < s.len() ==> (#[trigger] s[i]).1.len() > 0 && unique_keys(s[i].1) && under_names(
            s[i].1,
        )
}

/// The files that could be read, by path; of two reads of one path the later counts.
pub open spec fn read_files(reads: Seq<Read>) -> Seq<(Seq<char>, Seq<char>)>
    decreases reads.len(),
{
    if reads.len() == 0 {
        Seq::empty()
    } else {
        match reads.last().content {
            Ok(text) => table_set(read_files(reads.drop_last()), reads.last().path, text),
            Err(_) => read_files(reads.drop_last()),
        }
    }
}

/// The paths that could not be read, with the reason.
pub open spec fn unread_files(reads: Seq<Read>) -> Seq<(Seq<char>, Seq<char>)>
    decreases reads.len(),
{
    if reads.len() == 0 {
        Seq::empty()
    } else {
        match reads.last().content {
            Ok(_) => unread_files(reads.drop_last()),
            Err(why) => unread_files(reads.drop_last()).push((reads.last().path, why)),
        }
    }
}

/// The store with a checkpoint.
pub open spec fn with_checkpoint(
    s: Seq<(Seq<char>, Seq<(Seq<char>, Stored)>)>,
    session: Seq<char>,
    cp: Stored,
) -> Seq<(Seq<char>, Seq<(Seq<char>, Stored)>)> {
    table_set(s, session, table_set(session_checkpoints(s, session), cp.name, cp))
}

/// The store without the checkpoint of a session with a name; a session that is left
/// with none is dropped.
pub open spec fn without_checkpoint(
    s: Seq<(Seq<char>, Seq<(Seq<char>, Stored)>)>,
    session: Seq<char>,
    name: Seq<char>,
) -> Seq<(Seq<char>, Seq<(Seq<char>, Stored)>)> {
    let rest = table_remove(session_checkpoints(s, session), name);
    if table_get(s, session) is None {
        s
    } else if rest.len() == 0 {
        table_remove(s, session)
    } else {
        table_set(s, session, rest)
    }
}

/// What is told of a stored checkpoint.
pub open spec fn info_of(cp: Stored) -> Info {
    Info {
        name: cp.name,
        file_count: cp.files.len(),
        created_at: cp.created_at,
        skipped: Seq::empty(),
    }
}

/// What is told of the checkpoints of a session.
pub open spec fn listed(
    s: Seq<(Seq<char>, Seq<(Seq<char>, Stored)>)>,
    session: Seq<char>,
) -> Seq<Info> {
    Seq::new(
        session_checkpoints(s, session).len(),
        |i: int| info_of(session_checkpoints(s, session)[i].1),
    )
}

/// Whether a checkpoint is younger than a number of hours.
pub open spec fn young(cp: Stored, now: u64, ttl_hours: u32) -> bool {
    (if now >= cp.created_at {
        now - cp.created_at
    } else {
        0
    }) < ttl_hours * 3600
}

/// The checkpoints of a session that are younger than a number of hours.
pub open spec fn young_ones(t: Seq<(Seq<char>, Stored)>, now: u64, ttl_hours: u32) -> Seq<
    (Seq<char>, Stored),
>
    decreases t.len(),
{
    if t.len() == 0 {
        Seq::empty()
    } else {
        let rest = young_ones(t.drop_last(), now, ttl_hours);
        if young(t.last().1, now, ttl_hours) {
            rest.push(t.last())
        } else {
            rest
        }
    }
}

/// The store without what is older than a number of hours, and without the sessions that
/// have nothing left.
pub open spec fn cleaned(
    s: Seq<(Seq<char>, Seq<(Seq<char>, Stored)>)>,
    now: u64,
    ttl_hours: u32,
) -> Seq<(Seq<char>, Seq<(Seq<char>, Stored)>)>
    decreases s.len(),
{
    if s.len() == 0 {
        Seq::empty()
    } else {
        let rest = cleaned(s.drop_last(), now, ttl_hours);
        let left = young_ones(s.last().1, now, ttl_hours);
        if left.len() == 0 {
            rest
        } else {
            rest.push((s.last().0, left))
        }
    }
}

/// How many checkpoints all sessions have.
pub open spec fn checkpoint_count(s: Seq<(Seq<char>, Seq<(Seq<char>, Stored)>)>) -> nat
    decreases s.len(),
{
    if s.len() == 0 {
        0
    } else {
        checkpoint_count(s.drop_last()) + s.last().1.len()
    }
}

/// The contents of the paths before the first that the checkpoint does not hold, in the
/// order of the paths.
pub open spec fn held_files(files: Seq<(Seq<char>, Seq<char>)>, paths: Seq<Seq<char>>) -> Seq<
    (Seq<char>, Seq<char>),
>
    decreases paths.len(),
{
    if paths.len() == 0 {
        Seq::empty()
    } else {
        match table_get(files, paths[0]) {
            Some(text) => seq![(paths[0], text)] + held_files(files, paths.drop_first()),
            None => Seq::empty(),
        }
    }
}

/// The first path that the checkpoint does not hold.
pub open spec fn first_unheld(files: Seq<(Seq<char>, Seq<char>)>, paths: Seq<Seq<char>>) -> Option<
    Seq<char>,
>
    decreases paths.len(),
{
    if paths.len() == 0 {
        None
    } else if table_get(files, paths[0]) is None {
        Some(paths[0])
    } else {
        first_unheld(files, paths.drop_first())
    }
}

/// The files that a checkpoint reads: those asked for, or else the tracked ones.
pub fn checkpoint_files(files: Vec<String>, tracked_files: Vec<String>) -> (r: Vec<String>)
    ensures
        r == (if files@.len() == 0 {
            tracked_files
        } else {
            files
        }),
{
    if files.len() == 0 {
        tracked_files
    } else {
        files
    }
}

fn copy_files(files: &Vec<Entry<String>>) -> (r: Vec<Entry<String>>)
    ensures
        models(r@) == models(files@),
{
    broadcast use group_models;

    let mut out: Vec<Entry<String>> = Vec::new();
    let mut i: usize = 0;
    while i < files.len()
        invariant
            i <= files.len(),
            models(out@) == models(files@).take(i as int),
        decreases files.len() - i,
    {
        let e = Entry { key: owned(files[i].key.as_str()), value: owned(files[i].value.as_str()) };
        let ghost before = models(out@);
        let ghost m = e.deep_view();
        out.push(e);
        assert(models(out@) == before.push(m));
        assert(models(files@).take(i + 1) =~= models(files@).take(i as int).push(m));
        i = i + 1;
    }
    assert(models(files@).take(i as int) =~= models(files@));
    out
}

impl Checkpoint {
    fn info(&self) -> (r: CheckpointInfo)
        ensures
            r.deep_view() == info_of(self.deep_view()),
    {
        broadcast use group_models;

        let r = CheckpointInfo {
            name: owned(self.name.as_str()),
            file_count: self.file_contents.len(),
            created_at: self.created_at,
            skipped: Vec::new(),
        };
        assert(r.deep_view() =~= info_of(self.deep_view()));
        r
    }
}

fn expire(named: &mut Vec<Entry<Checkpoint>>, now: u64, ttl_hours: u32)
    ensures
        models(final(named)@) == young_ones(models(old(named)@), now, ttl_hours),
{
    broadcast use group_models;

    let ghost all = models(named@);
    let ttl: u64 = ttl_hours as u64 * 3600;
    let mut i: usize = 0;
    let ghost mut k: int = 0;
    assert(all.skip(0) =~= all);
    assert(young_ones(all.take(0), now, ttl_hours) + all.skip(0) =~= all);
    while i < named.len()
        invariant
            ttl == ttl_hours * 3600,
            0 <= k <= all.len(),
            i <= named.len(),
            i == young_ones(all.take(k), now, ttl_hours).len(),
            models(named@) == young_ones(all.take(k), now, ttl_hours) + all.skip(k),
        decreases named.len() - i,
    {
        let ghost done = young_ones(all.take(k), now, ttl_hours);
        assert(models(named@)[i as int] == all[k]);
        assert(models(named@)[i as int].1 == named@[i as int].value.deep_view());
        assert(all.take(k + 1).drop_last() =~= all.take(k));
        assert(all.skip(k) =~= seq![all[k]] + all.skip(k + 1));
        let age: u64 = now.saturating_sub(named[i].value.created_at);
        if age < ttl {
            assert(done.push(all[k]) + all.skip(k + 1) =~= done + all.skip(k));
            i = i + 1;
        } else {
            let ghost before = models(named@);
            let _old = named.remove(i);
            assert(before.remove(i as int) =~= done + all.skip(k + 1));
        }
        proof {
            k = k + 1;
        }
    }
    assert(all.skip(k).len() == 0);
    assert(all.take(k) =~= all);
    assert(young_ones(all, now, ttl_hours) + all.skip(k) =~= young_ones(all, now, ttl_hours));
}

impl CheckpointStore {
    /// A store without checkpoints.
    pub fn new() -> (r: Self)
        ensures
            r@.len() == 0,
            sound(r@),
    {
        CheckpointStore { sessions: Vec::new() }
    }

    /// Keeps what was read as the checkpoint of the session with this name, in the place of
    /// one that already has it. What could not be read is skipped and told; where the
    /// files were asked for and none could be read, that is an error and nothing changes.
    pub fn create(
        &mut self,
        session: &str,
        name: &str,
        explicit_request: bool,
        reads: Vec<FileRead>,
        now: u64,
    ) -> (r: Result<CheckpointInfo, AftError>)
        ensures
            ({
                let files = read_files(models(reads@));
                let skipped = unread_files(models(reads@));
                if explicit_request && files.len() == 0 && skipped.len() > 0 {
                    &&& outcome(r) == Err::<Info, Fault>(
                        Fault::FileNotFound { path: skipped[0].0 + ": "@ + skipped[0].1 },
                    )
                    &&& final(self)@ == old(self)@
                } else {
                    &&& outcome(r) == Ok::<Info, Fault>(
                        Info { name: name@, file_count: files.len(), created_at: now, skipped },
                    )
                    &&& final(self)@ == with_checkpoint(
                        old(self)@,
                        session@,
                        Stored { name: name@, files, created_at: now },
                    )
                }
            }),
            sound(old(self)@) ==> sound(final(self)@),
    {
        broadcast use group_models;

        let ghost before = self@;
        let ghost all = models(reads@);
        let mut file_contents: Vec<Entry<String>> = Vec::new();
        let mut skipped: Vec<(String, String)> = Vec::new();
        let mut i: usize = 0;
        while i < reads.len()
            invariant
                i <= reads.len(),
                all == models(reads@),
                models(file_contents@) == read_files(all.take(i as int)),
                models(skipped@) == unread_files(all.take(i as int)),
            decreases reads.len() - i,
        {
            assert(all.take(i + 1).drop_last() =~= all.take(i as int));
            assert(all[i as int] == reads@[i as int].deep_view());
            let path = owned(reads[i].path.as_str());
            match &reads[i].content {
                Ok(text) => {
                    set_entry(&mut file_contents, path, owned(text.as_str()));
                },
                Err(why) => {
                    let ghost was = models(skipped@);
                    let pair = (path, owned(why.as_str()));
                    let ghost m = pair.deep_view();
                    skipped.push(pair);
                    assert(models(skipped@) == was.push(m));
                },
            }
            i = i + 1;
        }
        assert(all.take(i as int) =~= all);
        if explicit_request && file_contents.len() == 0 && skipped.len() > 0 {
            assert(models(skipped@)[0] == skipped@[0].deep_view());
            return Err(
                AftError::FileNotFound {
                    path: text3(skipped[0].0.as_str(), ": ", skipped[0].1.as_str()),
                },
            );
        }
        let file_count = file_contents.len();
        let cp = Checkpoint { name: owned(name), file_contents, created_at: now };
        let ghost m = cp.deep_view();
        proof {
            lemma_key_index(before, session@);
            lemma_with_checkpoint_sound(before, session@, m);
        }
        match find_key(&self.sessions, session) {
            Some(k) => {
                let mut e = self.sessions.remove(k);
                assert(models(e.value.named@) == before[k as int].1);
                set_entry(&mut e.value.named, owned(name), cp);
                let ghost em = e.deep_view();
                self.sessions.insert(k, e);
                assert(models(self.sessions@) =~= before.update(k as int, em));
            },
            None => {
                let mut named: Vec<Entry<Checkpoint>> = Vec::new();
                set_entry(&mut named, owned(name), cp);
                self.sessions.push(
                    Entry { key: owned(session), value: SessionCheckpoints { named } },
                );
            },
        }
        Ok(CheckpointInfo { name: owned(name), file_count, created_at: now, skipped })
    }

    /// The checkpoint of a session with a name, to be put back: every file with the content
    /// that it had.
    pub fn restore(&self, session: &str, name: &str) -> (r: Result<Restored, AftError>)
        ensures
            match checkpoint_of(self@, session@, name@) {
                Some(cp) => r is Ok && (r->Ok_0).info.deep_view() == info_of(cp) && models(
                    (r->Ok_0).writes@,
                ) == cp.files,
                None => r is Err && (r->Err_0).deep_view() == (Fault::CheckpointNotFound {
                    name: name@,
                }),
            },
    {
        match self.get(session, name) {
            Some(cp) => Ok(Restored { info: cp.info(), writes: copy_files(&cp.file_contents) }),
            None => Err(AftError::CheckpointNotFound { name: owned(name) }),
        }
    }

    /// The files of a checkpoint to write for a list of paths, and the answer once they are
    /// written. A path that the checkpoint does not hold ends the list with an error; what
    /// comes before it is still written.
    pub fn restore_validated(&self, session: &str, name: &str, validated_paths: &Vec<String>) -> (r:
        (Vec<Entry<String>>, Result<CheckpointInfo, AftError>))
        ensures
            match checkpoint_of(self@, session@, name@) {
                Some(cp) => {
                    let paths = texts(validated_paths@);
                    &&& models(r.0@) == held_files(cp.files, paths)
                    &&& outcome(r.1) == match first_unheld(cp.files, paths) {
                        Some(path) => Err::<Info, Fault>(Fault::FileNotFound { path }),
                        None => Ok(info_of(cp)),
                    }
                },
                None => r.0@.len() == 0 && outcome(r.1) == Err::<Info, Fault>(
                    Fault::CheckpointNotFound { name: name@ },
                ),
            },
    {
        broadcast use group_models;

        match self.get(session, name) {
            Some(cp) => {
                let ghost files = models(cp.file_contents@);
                let ghost paths = texts(validated_paths@);
                let mut writes: Vec<Entry<String>> = Vec::new();
                let mut i: usize = 0;
                assert(paths.skip(0) =~= paths);
                assert(models(writes@) + held_files(files, paths) =~= held_files(files, paths));
                while i < validated_paths.len()
                    invariant
                        i <= validated_paths.len(),
                        files == models(cp.file_contents@),
                        cp.deep_view().files == files,
                        checkpoint_of(self@, session@, name@) == Some(cp.deep_view()),
                        paths == texts(validated_paths@),
                        models(writes@) + held_files(files, paths.skip(i as int)) == held_files(
                            files,
                            paths,
                        ),
                        first_unheld(files, paths.skip(i as int)) == first_unheld(files, paths),
                    decreases validated_paths.len() - i,
                {
                    let path = validated_paths[i].as_str();
                    let ghost left = paths.skip(i as int);
                    assert(left[0] == path@);
                    assert(left.drop_first() =~= paths.skip(i + 1));
                    match get_entry(&cp.file_contents, path) {
                        Some(text) => {
                            let ghost before = models(writes@);
                            let e = Entry { key: owned(path), value: owned(text.as_str()) };
                            let ghost m = e.deep_view();
                            writes.push(e);
                            assert(models(writes@) == before.push(m));
                            let ghost rest = held_files(files, paths.skip(i + 1));
                            assert(before + (seq![m] + rest) =~= before.push(m) + rest);
                        },
                        None => {
                            assert(models(writes@) + Seq::<(Seq<char>, Seq<char>)>::empty()
                                =~= models(writes@));
                            return (writes, Err(AftError::FileNotFound { path: owned(path) }));
                        },
                    }
                    i = i + 1;
                }
                assert(paths.skip(i as int).len() == 0);
                assert(models(writes@) + Seq::<(Seq<char>, Seq<char>)>::empty() =~= models(writes@));
                (writes, Ok(cp.info()))
            },
            None => (Vec::new(), Err(AftError::CheckpointNotFound { name: owned(name) })),
        }
    }

    /// The paths of the files that a checkpoint holds.
    pub fn file_paths(&self, session: &str, name: &str) -> (r: Result<Vec<String>, AftError>)
        ensures
            match checkpoint_of(self@, session@, name@) {
                Some(cp) => r is Ok && texts((r->Ok_0)@) == Seq::new(
                    cp.files.len(),
                    |i: int| cp.files[i].0,
                ),
                None => r is Err && (r->Err_0).deep_view() == (Fault::CheckpointNotFound {
                    name: name@,
                }),
            },
    {
        match self.get(session, name) {
            Some(cp) => {
                let ghost files = models(cp.file_contents@);
                let mut out: Vec<String> = Vec::new();
                let mut i: usize = 0;
                while i < cp.file_contents.len()
                    invariant
                        i <= cp.file_contents.len(),
                        files == models(cp.file_contents@),
                        out@.len() == i,
                        forall|k: int| 0 <= k < i ==> (#[trigger] out@[k])@ == files[k].0,
                    decreases cp.file_contents.len() - i,
                {
                    out.push(owned(cp.file_contents[i].key.as_str()));
                    i = i + 1;
                }
                assert(texts(out@) =~= Seq::new(files.len(), |i: int| files[i].0));
                Ok(out)
            },
            None => Err(AftError::CheckpointNotFound { name: owned(name) }),
        }
    }

    /// Takes a checkpoint out, and tells whether there was one.
    pub fn delete(&mut self, session: &str, name: &str) -> (r: bool)
        ensures
            r == (checkpoint_of(old(self)@, session@, name@) is Some),
            final(self)@ == without_checkpoint(old(self)@, session@, name@),
            sound(old(self)@) ==> sound(final(self)@),
    {
        broadcast use group_models;

        let ghost before = self@;
        proof {
            lemma_key_index(before, session@);
            lemma_without_checkpoint_sound(before, session@, name@);
        }
        match find_key(&self.sessions, session) {
            Some(k) => {
                let mut e = self.sessions.remove(k);
                assert(models(e.value.named@) == before[k as int].1);
                let removed = match find_key(&e.value.named, name) {
                    Some(i) => {
                        let _gone = e.value.named.remove(i);
                        true
                    },
                    None => false,
                };
                assert(models(e.value.named@) == table_remove(before[k as int].1, name@));
                if e.value.named.len() > 0 {
                    let ghost em = e.deep_view();
                    self.sessions.insert(k, e);
                    assert(models(self.sessions@) =~= before.update(k as int, em));
                } else {
                    assert(models(self.sessions@) =~= before.remove(k as int));
                }
                removed
            },
            None => false,
        }
    }

    /// What is told of every checkpoint of a session.
    pub fn list(&self, session: &str) -> (r: Vec<CheckpointInfo>)
        ensures
            models(r@) == listed(self@, session@),
    {
        broadcast use group_models;

        let mut out: Vec<CheckpointInfo> = Vec::new();
        match get_entry(&self.sessions, session) {
            Some(s) => {
                let ghost named = models(s.named@);
                let ghost told = Seq::new(named.len(), |i: int| info_of(named[i].1));
                let mut i: usize = 0;
                while i < s.named.len()
                    invariant
                        i <= s.named.len(),
                        named == models(s.named@),
                        told == Seq::new(named.len(), |i: int| info_of(named[i].1)),
                        models(out@) == told.take(i as int),
                    decreases s.named.len() - i,
                {
                    let info = s.named[i].value.info();
                    let ghost before = models(out@);
                    let ghost m = info.deep_view();
                    out.push(info);
                    assert(models(out@) == before.push(m));
                    assert(told.take(i + 1) =~= told.take(i as int).push(m));
                    i = i + 1;
                }
                assert(told.take(i as int) =~= told);
            },
            None => {},
        }
        out
    }

    /// How many checkpoints all sessions have together, up to the largest number that fits.
    pub fn total_count(&self) -> (r: usize)
        ensures
            r == (if checkpoint_count(self@) > usize::MAX {
                usize::MAX as nat
            } else {
                checkpoint_count(self@)
            }),
    {
        let ghost all = self@;
        let mut n: usize = 0;
        let mut i: usize = 0;
        while i < self.sessions.len()
            invariant
                i <= self.sessions.len(),
                all == models(self.sessions@),
                n == (if checkpoint_count(all.take(i as int)) > usize::MAX {
                    usize::MAX as nat
                } else {
                    checkpoint_count(all.take(i as int))
                }),
            decreases self.sessions.len() - i,
        {
            assert(all.take(i + 1).drop_last() =~= all.take(i as int));
            assert(all[i as int].1 == models(self.sessions@[i as int].value.named@));
            n = n.saturating_add(self.sessions[i].value.named.len());
            i = i + 1;
        }
        assert(all.take(i as int) =~= all);
        n
    }

    /// Drops every checkpoint that is a number of hours old or older, and every session that
    /// has none left.
    pub fn cleanup(&mut self, ttl_hours: u32, now: u64)
        ensures
            final(self)@ == cleaned(old(self)@, now, ttl_hours),
            sound(old(self)@) ==> sound(final(self)@),
    {
        broadcast use group_models;

        let ghost all = self@;
        let mut i: usize = 0;
        let ghost mut k: int = 0;
        assert(cleaned(all.take(0), now, ttl_hours) + all.skip(0) =~= all);
        while i < self.sessions.len()
            invariant
                0 <= k <= all.len(),
                i <= self.sessions.len(),
                i == cleaned(all.take(k), now, ttl_hours).len(),
                models(self.sessions@) == cleaned(all.take(k), now, ttl_hours) + all.skip(k),
            decreases self.sessions.len() - i,
        {
            let ghost done = cleaned(all.take(k), now, ttl_hours);
            let ghost before = models(self.sessions@);
            assert(before[i as int] == all[k]);
            assert(all.take(k + 1).drop_last() =~= all.take(k));
            let mut e = self.sessions.remove(i);
            assert(e.deep_view() == all[k]);
            let ghost rest = models(self.sessions@);
            assert(rest == before.remove(i as int));
            assert(all.skip(k).drop_first() =~= all.skip(k + 1));
            assert(rest =~= done + all.skip(k + 1));
            expire(&mut e.value.named, now, ttl_hours);
            if e.value.named.len() > 0 {
                let ghost em = e.deep_view();
                self.sessions.insert(i, e);
                assert(models(self.sessions@) =~= rest.insert(i as int, em));
                assert(rest.insert(i as int, em) =~= done.push(em) + all.skip(k + 1));
                i = i + 1;
            }
            proof {
                k = k + 1;
            }
        }
        assert(all.take(k) =~= all);
        assert(cleaned(all, now, ttl_hours) + all.skip(k) =~= cleaned(all, now, ttl_hours));
        proof {
            if sound(all) {
                lemma_cleaned_sound(all, now, ttl_hours);
            }
        }
    }

    fn get(&self, session: &str, name: &str) -> (r: Option<&Checkpoint>)
        ensures
            match r {
                Some(cp) => checkpoint_of(self@, session@, name@) == Some(cp.deep_view()),
                None => checkpoint_of(self@, session@, name@) is None,
            },
    {
        match get_entry(&self.sessions, session) {
            Some(s) => get_entry(&s.named, name),
            None => None,
        }
    }
}

proof fn lemma_with_checkpoint_sound(
    s: Seq<(Seq<char>, Seq<(Seq<char>, Stored)>)>,
    session: Seq<char>,
    cp: Stored,
)
    ensures
        sound(s) ==> sound(with_checkpoint(s, session, cp)),
{
    if sound(s) {
        lemma_key_index(s, session);
        let named = session_checkpoints(s, session);
        lemma_unique_keys(named, cp.name, cp);
        lemma_unique_keys(s, session, table_set(named, cp.name, cp));
        lemma_key_index(named, cp.name);
    }
}

proof fn lemma_without_checkpoint_sound(
    s: Seq<(Seq<char>, Seq<(Seq<char>, Stored)>)>,
    session: Seq<char>,
    name: Seq<char>,
)
    ensures
        sound(s) ==> sound(without_checkpoint(s, session, name)),
{
    if sound(s) && table_get(s, session) is Some {
        lemma_key_index(s, session);
        let named = session_checkpoints(s, session);
        assert(unique_keys(named));
        let any = named[0].1;
        lemma_unique_keys(named, name, any);
        lemma_unique_keys(s, session, table_remove(named, name));
        lemma_key_index(named, name);
    }
}

proof fn lemma_young_ones(t: Seq<(Seq<char>, Stored)>, now: u64, ttl_hours: u32)
    ensures
        forall|k: int|
            0 <= k < young_ones(t, now, ttl_hours).len() ==> exists|i: int|
                0 <= i < t.len() && t[i] == #[trigger] young_ones(t, now, ttl_hours)[k],
        unique_keys(t) ==> unique_keys(young_ones(t, now, ttl_hours)),
        under_names(t) ==> under_names(young_ones(t, now, ttl_hours)),
    decreases t.len(),
{
    if t.len() > 0 {
        let short = t.drop_last();
        let rest = young_ones(short, now, ttl_hours);
        let r = young_ones(t, now, ttl_hours);
        lemma_young_ones(short, now, ttl_hours);
        assert forall|k: int| 0 <= k < r.len() implies exists|i: int|
            0 <= i < t.len() && t[i] == #[trigger] r[k] by {
            if k < rest.len() {
                assert(r[k] == rest[k]);
                let i = choose|i: int| 0 <= i < short.len() && short[i] == rest[k];
                assert(t[i] == r[k]);
            } else {
                assert(t[t.len() - 1] == r[k]);
            }
        }
        if under_names(t) {
            assert forall|k: int| 0 <= k < r.len() implies (#[trigger] r[k]).1.name == r[k].0 by {
                let i = choose|i: int| 0 <= i < t.len() && t[i] == r[k];
                assert(t[i].1.name == t[i].0);
            }
        }
        if unique_keys(t) {
            assert(unique_keys(short)) by {
                assert forall|i: int, j: int| 0 <= i < j < short.len() implies #[trigger] short[i].0
                    != #[trigger] short[j].0 by {
                    assert(t[i].0 != t[j].0);
                }
            }
            assert forall|i: int, j: int| 0 <= i < j < r.len() implies #[trigger] r[i].0
                != #[trigger] r[j].0 by {
                if j < rest.len() {
                    assert(rest[i].0 != rest[j].0);
                } else {
                    assert(r[i] == rest[i]);
                    let a = choose|a: int| 0 <= a < short.len() && short[a] == rest[i];
                    assert(t[a].0 != t[t.len() - 1].0);
                }
            }
        }
    }
}

proof fn lemma_cleaned_sound(
    s: Seq<(Seq<char>, Seq<(Seq<char>, Stored)>)>,
    now: u64,
    ttl_hours: u32,
)
    requires
        sound(s),
    ensures
        sound(cleaned(s, now, ttl_hours)),
        forall|k: int|
            0 <= k < cleaned(s, now, ttl_hours).len() ==> exists|i: int|
                0 <= i < s.len() && #[trigger] s[i].0 == #[trigger] cleaned(
                    s,
                    now,
                    ttl_hours,
                )[k].0,
    decreases s.len(),
{
    if s.len() > 0 {
        let short = s.drop_last();
        assert(sound(short)) by {
            assert forall|i: int, j: int| 0 <= i < j < short.len() implies #[trigger] short[i].0
                != #[trigger] short[j].0 by {
                assert(s[i].0 != s[j].0);
            }
            assert forall|i: int| 0 <= i < short.len() implies (#[trigger] short[i]).1.len() > 0
                && unique_keys(short[i].1) && under_names(short[i].1) by {
                assert(s[i].1.len() > 0);
            }
        }
        lemma_cleaned_sound(short, now, ttl_hours);
        lemma_young_ones(s.last().1, now, ttl_hours);
        let rest = cleaned(short, now, ttl_hours);
        let r = cleaned(s, now, ttl_hours);
        assert(s[s.len() - 1] == s.last());
        assert forall|k: int| 0 <= k < r.len() implies exists|i: int|
            0 <= i < s.len() && #[trigger] s[i].0 == #[trigger] r[k].0 by {
            if k < rest.len() {
                assert(r[k] == rest[k]);
                let i = choose|i: int| 0 <= i < short.len() && short[i].0 == rest[k].0;
                assert(s[i].0 == r[k].0);
            } else {
                assert(s[s.len() - 1].0 == r[k].0);
            }
        }
        assert forall|i: int, j: int| 0 <= i < j < r.len() implies #[trigger] r[i].0
            != #[trigger] r[j].0 by {
            if j < rest.len() {
                assert(rest[i].0 != rest[j].0);
            } else {
                assert(r[i] == rest[i]);
                let a = choose|a: int| 0 <= a < short.len() && short[a].0 == rest[i].0;
                assert(s[a].0 != s[s.len() - 1].0);
            }
        }
        assert forall|i: int| 0 <= i < r.len() implies (#[trigger] r[i]).1.len() > 0
            && unique_keys(r[i].1) && under_names(r[i].1) by {
            if i < rest.len() {
                assert(rest[i].1.len() > 0);
            }
        }
    }
}

/// A checkpoint that was kept is found again, as it was kept.
pub proof fn kept_checkpoint_is_found(
    s: Seq<(Seq<char>, Seq<(Seq<char>, Stored)>)>,
    session: Seq<char>,
    cp: Stored,
)
    ensures
        checkpoint_of(with_checkpoint(s, session, cp), session, cp.name) == Some(cp),
{
    let named = session_checkpoints(s, session);
    lemma_table_get_set(named, cp.name, cp);
    lemma_table_get_set(s, session, table_set(named, cp.name, cp));
}

/// Of the files that were read, a checkpoint holds the content that the last read of each
/// gave.
pub proof fn checkpoint_holds_what_was_read(reads: Seq<Read>, i: int)
    requires
        0 <= i < reads.len(),
        reads[i].content is Ok,
        forall|k: int|
            i < k < reads.len() ==> (#[trigger] reads[k]).path != reads[i].path
                || reads[k].content is Err,
    ensures
        table_get(read_files(reads), reads[i].path) == Some(reads[i].content->Ok_0),
    decreases reads.len(),
{
    let short = reads.drop_last();
    let rest = read_files(short);
    let last = reads.last();
    if i == reads.len() - 1 {
        lemma_table_get_set(rest, last.path, last.content->Ok_0);
    } else {
        assert forall|k: int| i < k < short.len() implies (#[trigger] short[k]).path
            != short[i].path || short[k].content is Err by {
            assert(short[k] == reads[k]);
        }
        checkpoint_holds_what_was_read(short, i);
        assert(reads[reads.len() - 1] == last);
        if last.content is Ok {
            lemma_table_get_set_other(rest, last.path, last.content->Ok_0, reads[i].path);
        }
    }
}

/// Neither keeping nor deleting a checkpoint changes one of another session or of another
/// name.
pub proof fn checkpoints_are_independent(
    s: Seq<(Seq<char>, Seq<(Seq<char>, Stored)>)>,
    session: Seq<char>,
    cp: Stored,
    other_session: Seq<char>,
    other_name: Seq<char>,
)
    requires
        other_session != session || other_name != cp.name,
    ensures
        checkpoint_of(with_checkpoint(s, session, cp), other_session, other_name)
            == checkpoint_of(s, other_session, other_name),
        sound(s) ==> checkpoint_of(
            without_checkpoint(s, session, cp.name),
            other_session,
            other_name,
        ) == checkpoint_of(s, other_session, other_name),
{
    let named = session_checkpoints(s, session);
    let added = table_set(named, cp.name, cp);
    let rest = table_remove(named, cp.name);
    lemma_key_index(s, session);
    if other_session != session {
        lemma_table_get_set_other(s, session, added, other_session);
        lemma_table_get_set_other(s, session, rest, other_session);
        lemma_table_get_remove_other(s, session, other_session);
    } else {
        lemma_table_get_set(s, session, added);
        lemma_table_get_set(s, session, rest);
        lemma_table_get_set_other(named, cp.name, cp, other_name);
        lemma_table_get_remove_other(named, cp.name, other_name);
        if sound(s) && rest.len() == 0 {
            lemma_table_get_remove(s, session);
            assert(table_get(rest, other_name) is None) by {
                lemma_key_index(rest, other_name);
            }
            lemma_key_index(Seq::<(Seq<char>, Stored)>::empty(), other_name);
        }
    }
}

/// A checkpoint that was deleted is gone.
pub proof fn deleted_checkpoint_is_gone(
    s: Seq<(Seq<char>, Seq<(Seq<char>, Stored)>)>,
    session: Seq<char>,
    name: Seq<char>,
)
    requires
        sound(s),
    ensures
        checkpoint_of(without_checkpoint(s, session, name), session, name) is None,
{
    let named = session_checkpoints(s, session);
    let rest = table_remove(named, name);
    lemma_key_index(s, session);
    lemma_key_index(Seq::<(Seq<char>, Stored)>::empty(), name);
    if table_get(s, session) is Some {
        lemma_table_get_remove(named, name);
        if rest.len() == 0 {
            lemma_table_get_remove(s, session);
        } else {
            lemma_table_get_set(s, session, rest);
        }
    }
}

proof fn lemma_young_get(t: Seq<(Seq<char>, Stored)>, now: u64, ttl_hours: u32, name: Seq<char>)
    requires
        unique_keys(t),
    ensures
        table_get(young_ones(t, now, ttl_hours), name) == match table_get(t, name) {
            Some(cp) => if young(cp, now, ttl_hours) {
                Some(cp)
            } else {
                None
            },
            None => None,
        },
    decreases t.len(),
{
    lemma_key_index(t, name);
    let r = young_ones(t, now, ttl_hours);
    lemma_key_index(r, name);
    if t.len() > 0 {
        let short = t.drop_last();
        let rest = young_ones(short, now, ttl_hours);
        assert(unique_keys(short)) by {
            assert forall|i: int, j: int| 0 <= i < j < short.len() implies #[trigger] short[i].0
                != #[trigger] short[j].0 by {
                assert(t[i].0 != t[j].0);
            }
        }
        lemma_young_get(short, now, ttl_hours, name);
        lemma_key_index(short, name);
        lemma_key_index(rest, name);
        lemma_young_ones(short, now, ttl_hours);
        let n = t.len() - 1;
        let j = key_index(t, name);
        if j < n {
            lemma_key_index_is(short, name, j);
            if key_index(rest, name) < rest.len() {
                lemma_key_index_is(r, name, key_index(rest, name));
            } else {
                assert(t[j].0 != t[n].0);
                assert forall|k: int| 0 <= k < r.len() implies #[trigger] r[k].0 != name by {
                    if k < rest.len() {
                        assert(rest[k].0 != name);
                    }
                }
                lemma_key_index_is(r, name, r.len() as int);
            }
        } else {
            assert forall|k: int| 0 <= k < short.len() implies #[trigger] short[k].0 != name by {
                assert(t[k].0 != name);
            }
            lemma_key_index_is(short, name, short.len() as int);
            assert(key_index(rest, name) == rest.len());
            if young(t.last().1, now, ttl_hours) {
                if t.last().0 == name {
                    lemma_key_index_is(r, name, rest.len() as int);
                } else {
                    assert forall|k: int| 0 <= k < r.len() implies #[trigger] r[k].0 != name by {
                        if k < rest.len() {
                            assert(rest[k].0 != name);
                        }
                    }
                    lemma_key_index_is(r, name, r.len() as int);
                }
            }
        }
    }
}

proof fn lemma_cleaned_get(
    s: Seq<(Seq<char>, Seq<(Seq<char>, Stored)>)>,
    now: u64,
    ttl_hours: u32,
    session: Seq<char>,
)
    requires
        sound(s),
    ensures
        session_checkpoints(cleaned(s, now, ttl_hours), session) == young_ones(
            session_checkpoints(s, session),
            now,
            ttl_hours,
        ),
    decreases s.len(),
{
    lemma_key_index(s, session);
    let r = cleaned(s, now, ttl_hours);
    lemma_key_index(r, session);
    if s.len() > 0 {
        let short = s.drop_last();
        let rest = cleaned(short, now, ttl_hours);
        assert(sound(short)) by {
            assert forall|i: int, j: int| 0 <= i < j < short.len() implies #[trigger] short[i].0
                != #[trigger] short[j].0 by {
                assert(s[i].0 != s[j].0);
            }
            assert forall|i: int| 0 <= i < short.len() implies (#[trigger] short[i]).1.len() > 0
                && unique_keys(short[i].1) && under_names(short[i].1) by {
                assert(s[i].1.len() > 0);
            }
        }
        lemma_cleaned_get(short, now, ttl_hours, session);
        lemma_key_index(short, session);
        lemma_key_index(rest, session);
        lemma_cleaned_sound(short, now, ttl_hours);
        let n = s.len() - 1;
        let j = key_index(s, session);
        if j < n {
            lemma_key_index_is(short, session, j);
            if key_index(rest, session) < rest.len() {
                lemma_key_index_is(r, session, key_index(rest, session));
            } else {
                assert(s[j].0 != s[n].0);
                assert forall|k: int| 0 <= k < r.len() implies #[trigger] r[k].0 != session by {
                    if k < rest.len() {
                        assert(rest[k].0 != session);
                    }
                }
                lemma_key_index_is(r, session, r.len() as int);
            }
        } else {
            assert forall|k: int| 0 <= k < short.len() implies #[trigger] short[k].0
                != session by {
                assert(s[k].0 != session);
            }
            lemma_key_index_is(short, session, short.len() as int);
            assert(key_index(rest, session) == rest.len()) by {
                if key_index(rest, session) < rest.len() {
                    let k = key_index(rest, session);
                    let a = choose|a: int| 0 <= a < short.len() && short[a].0 == rest[k].0;
                    assert(short[a].0 != session);
                }
            }
            if young_ones(s.last().1, now, ttl_hours).len() > 0 {
                if s.last().0 == session {
                    lemma_key_index_is(r, session, rest.len() as int);
                } else {
                    assert forall|k: int| 0 <= k < r.len() implies #[trigger] r[k].0
                        != session by {
                        if k < rest.len() {
                            assert(rest[k].0 != session);
                        }
                    }
                    lemma_key_index_is(r, session, r.len() as int);
                }
            }
        }
    }
}

/// After a cleanup exactly the young checkpoints are left, each as it was.
pub proof fn cleanup_keeps_the_young(
    s: Seq<(Seq<char>, Seq<(Seq<char>, Stored)>)>,
    now: u64,
    ttl_hours: u32,
    session: Seq<char>,
    name: Seq<char>,
)
    requires
        sound(s),
    ensures
        checkpoint_of(cleaned(s, now, ttl_hours), session, name) == match checkpoint_of(
            s,
            session,
            name,
        ) {
            Some(cp) => if young(cp, now, ttl_hours) {
                Some(cp)
            } else {
                None
            },
            None => None,
        },
{
    lemma_cleaned_get(s, now, ttl_hours, session);
    lemma_key_index(s, session);
    assert(unique_keys(session_checkpoints(s, session))) by {
        if key_index(s, session) < s.len() {
            assert(s[key_index(s, session)].1.len() > 0);
        }
    }
    lemma_young_get(session_checkpoints(s, session), now, ttl_hours, name);
}

proof fn lemma_count_update(
    s: Seq<(Seq<char>, Seq<(Seq<char>, Stored)>)>,
    i: int,
    x: (Seq<char>, Seq<(Seq<char>, Stored)>),
)
    requires
        0 <= i < s.len(),
    ensures
        checkpoint_count(s.update(i, x)) == checkpoint_count(s) - s[i].1.len() + x.1.len(),
        checkpoint_count(s.remove(i)) == checkpoint_count(s) - s[i].1.len(),
    decreases s.len(),
{
    let short = s.drop_last();
    if i == s.len() - 1 {
        assert(s.update(i, x).drop_last() =~= short);
        assert(s.remove(i) =~= short);
    } else {
        lemma_count_update(short, i, x);
        assert(s.update(i, x).drop_last() =~= short.update(i, x));
        assert(s.remove(i).drop_last() =~= short.remove(i));
    }
}

/// A deletion lowers the number of checkpoints by one where there was such a checkpoint, and
/// leaves it where there was none.
pub proof fn deletion_is_counted(
    s: Seq<(Seq<char>, Seq<(Seq<char>, Stored)>)>,
    session: Seq<char>,
    name: Seq<char>,
)
    ensures
        checkpoint_count(without_checkpoint(s, session, name)) == checkpoint_count(s) - (
        if checkpoint_of(s, session, name) is Some {
            1int
        } else {
            0int
        }),
{
    let named = session_checkpoints(s, session);
    let rest = table_remove(named, name);
    let k = key_index(s, session);
    lemma_key_index(s, session);
    lemma_key_index(named, name);
    if k < s.len() {
        lemma_count_update(s, k, (session, rest));
    }
}

/// The names that are told of a session's checkpoints are distinct, one for each checkpoint, and
/// nothing is told to be skipped.
pub proof fn listed_names_are_distinct(
    s: Seq<(Seq<char>, Seq<(Seq<char>, Stored)>)>,
    session: Seq<char>,
)
    requires
        sound(s),
    ensures
        forall|i: int, j: int|
            0 <= i < j < listed(s, session).len() ==> (#[trigger] listed(s, session)[i]).name != (
            #[trigger] listed(s, session)[j]).name,
        forall|i: int|
            0 <= i < listed(s, session).len() ==> (#[trigger] listed(s, session)[i]).skipped.len()
                == 0 && checkpoint_of(s, session, listed(s, session)[i].name) is Some,
        forall|name: Seq<char>|
            checkpoint_of(s, session, name) is Some ==> exists|i: int|
                0 <= i < listed(s, session).len() && (#[trigger] listed(s, session)[i]).name
                    == name,
{
    let named = session_checkpoints(s, session);
    let told = listed(s, session);
    lemma_key_index(s, session);
    assert(unique_keys(named) && under_names(named));
    assert forall|i: int, j: int| 0 <= i < j < told.len() implies (#[trigger] told[i]).name != (
    #[trigger] told[j]).name by {
        assert(named[i].0 != named[j].0);
    }
    assert forall|i: int| 0 <= i < told.len() implies (#[trigger] told[i]).skipped.len() == 0
        && checkpoint_of(s, session, told[i].name) is Some by {
        assert(named[i].1.name == named[i].0);
        lemma_key_index(named, told[i].name);
    }
    assert forall|name: Seq<char>| checkpoint_of(s, session, name) is Some implies exists|i: int|
        0 <= i < told.len() && (#[trigger] told[i]).name == name by {
        lemma_key_index(named, name);
        let i = key_index(named, name);
        assert(told[i].name == name);
    }
}

/// How many checkpoints are told of the first `n` sessions.
pub open spec fn listed_upto(s: Seq<(Seq<char>, Seq<(Seq<char>, Stored)>)>, n: int) -> nat
    decreases n,
{
    if n <= 0 || n > s.len() {
        0
    } else {
        listed_upto(s, n - 1) + listed(s, s[n - 1].0).len()
    }
}

proof fn lemma_listed_upto(s: Seq<(Seq<char>, Seq<(Seq<char>, Stored)>)>, n: int)
    requires
        unique_keys(s),
        0 <= n <= s.len(),
    ensures
        listed_upto(s, n) == checkpoint_count(s.take(n)),
    decreases n,
{
    if n > 0 {
        lemma_listed_upto(s, n - 1);
        assert(s.take(n).drop_last() =~= s.take(n - 1));
        lemma_key_index_is(s, s[n - 1].0, n - 1);
    }
}

/// What is told of the checkpoints of all sessions adds up to the number of checkpoints, and of
/// a session that has none nothing is told.
pub proof fn lists_add_up(s: Seq<(Seq<char>, Seq<(Seq<char>, Stored)>)>, other: Seq<char>)
    requires
        sound(s),
    ensures
        listed_upto(s, s.len() as int) == checkpoint_count(s),
        table_get(s, other) is None ==> listed(s, other).len() == 0,
{
    lemma_listed_upto(s, s.len() as int);
    assert(s.take(s.len() as int) =~= s);
}

/// A checkpoint is young for as many hours as are given after it was made.
pub proof fn checkpoints_age_by_the_hour(cp: Stored, now: u64, hours: u32)
    ensures
        now >= cp.created_at ==> (young(cp, now, hours) <==> now - cp.created_at < hours * 3600),
        now < cp.created_at && hours > 0 ==> young(cp, now, hours),
{
}

/// Of the paths that are to be restored, those that a checkpoint holds are given back with their
/// content, up to the first that it does not hold, which is told.
pub proof fn paths_are_restored_up_to_the_first_unheld(
    files: Seq<(Seq<char>, Seq<char>)>,
    paths: Seq<Seq<char>>,
    k: int,
)
    requires
        0 <= k <= paths.len(),
        forall|i: int| 0 <= i < k ==> table_get(files, #[trigger] paths[i]) is Some,
        k < paths.len() ==> table_get(files, paths[k]) is None,
    ensures
        held_files(files, paths).len() == k,
        forall|i: int|
            0 <= i < k ==> (#[trigger] held_files(files, paths)[i]).0 == paths[i] && Some(
                held_files(files, paths)[i].1,
            ) == table_get(files, paths[i]),
        k < paths.len() ==> first_unheld(files, paths) == Some(paths[k]),
        k == paths.len() ==> first_unheld(files, paths) is None,
    decreases k,
{
    if k > 0 {
        assert(table_get(files, paths[0]) is Some);
        let rest = paths.drop_first();
        assert forall|i: int| 0 <= i < k - 1 implies table_get(
            files,
            #[trigger] rest[i],
        ) is Some by {
            assert(rest[i] == paths[i + 1]);
        }
        paths_are_restored_up_to_the_first_unheld(files, rest, k - 1);
        assert forall|i: int| 0 <= i < k implies (#[trigger] held_files(files, paths)[i]).0
            == paths[i] && Some(held_files(files, paths)[i].1) == table_get(files, paths[i]) by {
            if i > 0 {
                assert(held_files(files, paths)[i] == held_files(files, rest)[i - 1]);
            }
        }
    }
}

/// The paths that could not be read are told with why, in order, and no others are.
pub proof fn unread_paths_are_told(reads: Seq<Read>, r: Read)
    ensures
        match r.content {
            Ok(_) => unread_files(reads.push(r)) == unread_files(reads),
            Err(why) => unread_files(reads.push(r)) == unread_files(reads).push((r.path, why)),
        },
{
    assert(reads.push(r).drop_last() =~= reads);
}

/// A checkpoint is told by its name, the number of its files and when it was made.
pub proof fn checkpoints_are_told_as_they_are(cp: Stored)
    ensures
        info_of(cp).name == cp.name,
        info_of(cp).file_count == cp.files.len(),
        info_of(cp).created_at == cp.created_at,
{
}

} // verus!
