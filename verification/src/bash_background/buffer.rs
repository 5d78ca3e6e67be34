//! The output of a background task: kept in memory while it is small, and in a file once it is
//! not.
use vstd::prelude::*;
use vstd::slice::slice_subrange;
use vstd::utf8::{decode_utf8, valid_utf8};

use crate::commands::refusal::given_text;
use crate::paths::{join_path, path_join};
use crate::text::{owned, text2};

verus! {

/// How much output is kept in memory, in bytes.
pub const MEMORY_LIMIT_BYTES: usize = 1048576;

/// How large the file can become, in bytes.
pub const DISK_LIMIT_BYTES: u64 = 104857600;

/// How much of a file that has become too large is kept, in bytes.
pub const DISK_RETAIN_BYTES: u64 = 52428800;

/// Where output comes from.
#[derive(Debug, Clone, Copy, PartialEq, Eq, Structural)]
pub enum StreamKind {
    Stdout,
    Stderr,
}

/// The output of a task.
pub struct BgBuffer {
    memory: Vec<u8>,
    spill_path: String,
    spilling: bool,
    spilled_bytes: u64,
    rotated: bool,
}

/// The model of a `BgBuffer`.
#[verifier::ext_equal]
pub ghost struct Output {
    /// The output in memory.
    pub memory: Seq<u8>,
    pub path: Seq<char>,
    /// Whether the output goes to the file.
    pub spilling: bool,
    /// How much output is in the file.
    pub spilled: u64,
    /// Whether output was lost.
    pub rotated: bool,
}

impl View for BgBuffer {
    type V = Output;

    closed spec fn view(&self) -> Output {
        Output {
            memory: self.memory@,
            path: self.spill_path@,
            spilling: self.spilling,
            spilled: self.spilled_bytes,
            rotated: self.rotated,
        }
    }
}

/// What is to be done with the file.
pub enum BufferAction {
    Done,
    /// The file is to be opened, and the output in memory to be written to it.
    Open,
    /// A part of the output is to be written to the file.
    Write(Vec<u8>),
    /// The file is to be cut.
    Rotate,
}

/// The model of a `BufferAction`.
pub ghost enum Act {
    Done,
    Open,
    Write(Seq<u8>),
    Rotate,
}

impl DeepView for BufferAction {
    type V = Act;

    open spec fn deep_view(&self) -> Act {
        match *self {
            BufferAction::Done => Act::Done,
            BufferAction::Open => Act::Open,
            BufferAction::Write(b) => Act::Write(b@),
            BufferAction::Rotate => Act::Rotate,
        }
    }
}

/// The last bytes of a sequence, no more than `n`.
pub open spec fn last_bytes(b: Seq<u8>, n: int) -> Seq<u8> {
    if b.len() > n {
        b.skip(b.len() - n)
    } else {
        b
    }
}

/// What becomes of output that goes to the file: it is cut where the file becomes too large,
/// and lost where it is.
pub open spec fn planned(o: Output, chunk: Seq<u8>) -> (Output, Act) {
    if o.spilled >= DISK_LIMIT_BYTES {
        (Output { rotated: true, ..o }, Act::Done)
    } else if chunk.len() > DISK_LIMIT_BYTES - o.spilled {
        (Output { rotated: true, ..o }, Act::Write(chunk.take(DISK_LIMIT_BYTES - o.spilled)))
    } else {
        (o, Act::Write(chunk))
    }
}

/// What becomes of new output: it is kept in memory as long as it fits.
pub open spec fn appended(o: Output, chunk: Seq<u8>) -> (Output, Act) {
    if chunk.len() == 0 {
        (o, Act::Done)
    } else if o.spilling {
        planned(o, chunk)
    } else if o.memory.len() + chunk.len() <= MEMORY_LIMIT_BYTES {
        (Output { memory: o.memory + chunk, ..o }, Act::Done)
    } else {
        (o, Act::Open)
    }
}

/// What becomes of new output once the file was to be opened: `opened` is how large the file
/// is with the output from memory in it. Where it could not be opened, the last of the output
/// is kept in memory.
pub open spec fn opened_for(o: Output, chunk: Seq<u8>, opened: Option<u64>) -> (Output, Act) {
    match opened {
        None => (
            Output {
                memory: last_bytes(o.memory + chunk, MEMORY_LIMIT_BYTES as int),
                rotated: o.rotated || o.memory.len() + chunk.len() > MEMORY_LIMIT_BYTES,
                ..o
            },
            Act::Done,
        ),
        Some(len) => planned(
            Output { memory: Seq::empty(), spilling: true, spilled: len, ..o },
            chunk,
        ),
    }
}

/// What follows a write of `len` bytes to the file: one that has become too large is cut.
pub open spec fn written(o: Output, len: int, ok: bool) -> (Output, Act) {
    if !ok {
        (o, Act::Done)
    } else {
        let spilled = (o.spilled + len) as u64;
        (
            Output { spilled, ..o },
            if spilled >= DISK_LIMIT_BYTES {
                Act::Rotate
            } else {
                Act::Done
            },
        )
    }
}

/// How an attempt to cut the file ended.
pub enum Rotation {
    /// The last output could not be written; the file stays as it is.
    FlushFailed,
    /// The end of the file could not be kept.
    RetainFailed,
    /// The end of the file was kept, and it is open again, with a number of bytes in it.
    Reopened(u64),
    /// The end of the file was kept, and could not be opened again; this is what was in it,
    /// where it could be read.
    ReopenFailed(Option<Vec<u8>>),
}

/// What becomes of the output once the file was to be cut, if output goes to it at all. Where
/// the file is lost, output goes to memory again.
pub open spec fn rotated_by(o: Output, r: Rotation) -> Output {
    if !o.spilling {
        o
    } else {
        match r {
            Rotation::FlushFailed => o,
            Rotation::RetainFailed => Output {
                memory: Seq::empty(),
                spilling: false,
                spilled: 0,
                rotated: true,
                ..o
            },
            Rotation::Reopened(len) => Output { spilled: len, rotated: true, ..o },
            Rotation::ReopenFailed(kept) => Output {
                memory: match kept {
                    Some(b) => last_bytes(b@, MEMORY_LIMIT_BYTES as int),
                    None => o.memory,
                },
                spilling: false,
                spilled: 0,
                rotated: true,
                ..o
            },
        }
    }
}

/// The text that bytes are shown as, with a sign for what is no text.
pub uninterp spec fn lossy_text(b: Seq<u8>) -> Seq<char>;

/// `String::from_utf8_lossy`: the text of bytes, named `lossy_text`; bytes that are a text are
/// shown as that text.
#[verifier::external_body]
fn show_bytes(b: &[u8]) -> (r: String)
    ensures
        r@ == lossy_text(b@),
        valid_utf8(b@) ==> r@ == decode_utf8(b@),
{
    String::from_utf8_lossy(b).into_owned()
}

/// What was found of the end of the file: nothing where it could not be opened, and its length
/// alone where it could not be read.
pub struct SpillTail {
    pub len: u64,
    pub bytes: Option<Vec<u8>>,
}

/// The end of the output, no more than `max` bytes, and whether there is more.
pub open spec fn tail_of(o: Output, max: int, file: Option<SpillTail>) -> (Seq<char>, bool) {
    if max == 0 {
        (
            Seq::empty(),
            o.rotated || (if o.spilling {
                o.spilled > 0
            } else {
                o.memory.len() > 0
            }),
        )
    } else if o.spilling {
        match file {
            None => (Seq::empty(), o.rotated),
            Some(t) => (
                match t.bytes {
                    Some(b) => lossy_text(b@),
                    None => Seq::empty(),
                },
                o.rotated || t.len > max,
            ),
        }
    } else {
        (lossy_text(last_bytes(o.memory, max)), o.rotated || o.memory.len() > max)
    }
}

/// Whether the output in memory fits.
pub open spec fn sound(o: Output) -> bool {
    o.memory.len() <= MEMORY_LIMIT_BYTES
}

fn add_bytes(out: &mut Vec<u8>, more: &[u8])
    ensures
        final(out)@ == old(out)@ + more@,
{
    let ghost start = out@;
    let mut i: usize = 0;
    assert(start + more@.take(0) =~= start);
    while i < more.len()
        invariant
            i <= more.len(),
            out@ == start + more@.take(i as int),
        decreases more.len() - i,
    {
        out.push(more[i]);
        assert(out@ =~= start + more@.take(i + 1));
        i = i + 1;
    }
    assert(more@.take(i as int) =~= more@);
}

fn keep_last(b: &[u8], n: usize) -> (r: Vec<u8>)
    ensures
        r@ == last_bytes(b@, n as int),
{
    let mut out: Vec<u8> = Vec::new();
    if b.len() > n {
        add_bytes(&mut out, slice_subrange(b, b.len() - n, b.len()));
        assert(out@ =~= b@.skip(b@.len() - n));
    } else {
        add_bytes(&mut out, b);
        assert(out@ =~= b@);
    }
    out
}

/// The text of the last `max_bytes` of some bytes, and whether there are more.
pub fn tail_text(b: &[u8], max_bytes: usize) -> (r: (String, bool))
    ensures
        r.0@ == lossy_text(last_bytes(b@, max_bytes as int)),
        r.1 == (b@.len() > max_bytes),
{
    let tail = keep_last(b, max_bytes);
    (show_bytes(tail.as_slice()), b.len() > max_bytes)
}

impl BgBuffer {
    /// The output of a task that has none yet.
    pub fn new(task_id: &str, output_dir: &str) -> (r: Self)
        ensures
            r@ == (Output {
                memory: Seq::empty(),
                path: path_join(output_dir@, task_id@ + ".log"@),
                spilling: false,
                spilled: 0,
                rotated: false,
            }),
            sound(r@),
    {
        let r = BgBuffer {
            memory: Vec::new(),
            spill_path: join_path(output_dir, text2(task_id, ".log").as_str()),
            spilling: false,
            spilled_bytes: 0,
            rotated: false,
        };
        assert(r.memory@ =~= Seq::<u8>::empty());
        r
    }

    fn plan_write(&mut self, chunk: &[u8]) -> (r: BufferAction)
        ensures
            (final(self)@, r.deep_view()) == planned(old(self)@, chunk@),
    {
        if self.spilled_bytes >= DISK_LIMIT_BYTES {
            self.rotated = true;
            return BufferAction::Done;
        }
        let remaining: u64 = DISK_LIMIT_BYTES - self.spilled_bytes;
        let mut out: Vec<u8> = Vec::new();
        if chunk.len() as u64 > remaining {
            self.rotated = true;
            add_bytes(&mut out, slice_subrange(chunk, 0, remaining as usize));
            assert(out@ =~= chunk@.take(remaining as int));
        } else {
            add_bytes(&mut out, chunk);
            assert(out@ =~= chunk@);
        }
        BufferAction::Write(out)
    }

    /// Takes new output, whichever stream it comes from.
    pub fn append(&mut self, _kind: StreamKind, chunk: &[u8]) -> (r: BufferAction)
        ensures
            (final(self)@, r.deep_view()) == appended(old(self)@, chunk@),
            sound(old(self)@) ==> sound(final(self)@),
    {
        if chunk.len() == 0 {
            return BufferAction::Done;
        }
        if self.spilling {
            return self.plan_write(chunk);
        }
        if chunk.len() <= MEMORY_LIMIT_BYTES && self.memory.len() <= MEMORY_LIMIT_BYTES
            - chunk.len() {
            let mut memory: Vec<u8> = Vec::new();
            std::mem::swap(&mut memory, &mut self.memory);
            add_bytes(&mut memory, chunk);
            self.memory = memory;
            return BufferAction::Done;
        }
        BufferAction::Open
    }

    /// Notes that the file was to be opened for new output: how large it is now, or that it
    /// could not be.
    pub fn spill_opened(&mut self, chunk: &[u8], opened: Option<u64>) -> (r: BufferAction)
        ensures
            (final(self)@, r.deep_view()) == opened_for(old(self)@, chunk@, opened),
            sound(final(self)@),
    {
        match opened {
            None => {
                let mut memory: Vec<u8> = Vec::new();
                add_bytes(&mut memory, self.memory.as_slice());
                add_bytes(&mut memory, chunk);
                assert(memory@ =~= self.memory@ + chunk@);
                if memory.len() > MEMORY_LIMIT_BYTES {
                    self.rotated = true;
                }
                self.memory = keep_last(memory.as_slice(), MEMORY_LIMIT_BYTES);
                BufferAction::Done
            },
            Some(len) => {
                self.memory = Vec::new();
                assert(self.memory@ =~= Seq::<u8>::empty());
                self.spilling = true;
                self.spilled_bytes = len;
                self.plan_write(chunk)
            },
        }
    }

    /// Notes that a number of bytes was to be written to the file, and whether it was.
    pub fn chunk_written(&mut self, len: usize, ok: bool) -> (r: BufferAction)
        requires
            old(self)@.spilled + len <= DISK_LIMIT_BYTES,
        ensures
            (final(self)@, r.deep_view()) == written(old(self)@, len as int, ok),
            sound(old(self)@) ==> sound(final(self)@),
    {
        if !ok {
            return BufferAction::Done;
        }
        self.spilled_bytes = self.spilled_bytes + len as u64;
        if self.spilled_bytes >= DISK_LIMIT_BYTES {
            BufferAction::Rotate
        } else {
            BufferAction::Done
        }
    }

    /// Notes how an attempt to cut the file ended.
    pub fn rotate_spill_file(&mut self, rotation: Rotation)
        ensures
            final(self)@ == rotated_by(old(self)@, rotation),
            sound(old(self)@) ==> sound(final(self)@),
    {
        if !self.spilling {
            return;
        }
        match rotation {
            Rotation::FlushFailed => {},
            Rotation::RetainFailed => {
                self.memory = Vec::new();
                assert(self.memory@ =~= Seq::<u8>::empty());
                self.spilling = false;
                self.spilled_bytes = 0;
                self.rotated = true;
            },
            Rotation::Reopened(len) => {
                self.spilled_bytes = len;
                self.rotated = true;
            },
            Rotation::ReopenFailed(kept) => {
                match kept {
                    Some(b) => {
                        self.memory = keep_last(b.as_slice(), MEMORY_LIMIT_BYTES);
                    },
                    None => {},
                }
                self.spilling = false;
                self.spilled_bytes = 0;
                self.rotated = true;
            },
        }
    }

    /// The end of the output, and whether there is more. `file` is what was found of the end of
    /// the file, and is not looked at where the output is in memory.
    pub fn read_tail(&self, max_bytes: usize, file: Option<SpillTail>) -> (r: (String, bool))
        ensures
            (r.0@, r.1) == tail_of(self@, max_bytes as int, file),
    {
        if max_bytes == 0 {
            let empty = String::new();
            assert(empty@ =~= Seq::<char>::empty());
            return (empty, self.total_len() > 0 || self.rotated);
        }
        if self.spilling {
            let empty = String::new();
            assert(empty@ =~= Seq::<char>::empty());
            return match file {
                None => (empty, self.rotated),
                Some(t) => {
                    let more = self.rotated || t.len > max_bytes as u64;
                    match t.bytes {
                        Some(b) => (show_bytes(b.as_slice()), more),
                        None => (empty, more),
                    }
                },
            };
        }
        let (text, truncated) = tail_text(self.memory.as_slice(), max_bytes);
        (text, truncated || self.rotated)
    }

    /// All output; `file` is what is in the file, or why it cannot be read.
    pub fn read_all(&self, file: Result<Vec<u8>, String>) -> (r: Result<String, String>)
        ensures
            match r {
                Ok(text) => text@ == lossy_text(
                    if self@.spilling {
                        (file->Ok_0)@
                    } else {
                        self@.memory
                    },
                ) && (self@.spilling ==> file is Ok),
                Err(e) => self@.spilling && file == Err::<Vec<u8>, String>(e),
            },
    {
        if self.spilling {
            return match file {
                Ok(b) => Ok(show_bytes(b.as_slice())),
                Err(e) => Err(e),
            };
        }
        Ok(show_bytes(self.memory.as_slice()))
    }

    /// The file, where output goes to it.
    pub fn spill_path(&self) -> (r: Option<String>)
        ensures
            r.deep_view() == (if self@.spilling {
                Some(self@.path)
            } else {
                None
            }),
    {
        if self.spilling {
            Some(owned(self.spill_path.as_str()))
        } else {
            None
        }
    }

    /// How much output there is.
    pub fn total_len(&self) -> (r: u64)
        ensures
            r == (if self@.spilling {
                self@.spilled as int
            } else {
                self@.memory.len() as int
            }),
    {
        if self.spilling {
            self.spilled_bytes
        } else {
            self.memory.len() as u64
        }
    }

    /// Whether output was lost.
    pub fn was_rotated(&self) -> (r: bool)
        ensures
            r == self@.rotated,
    {
        self.rotated
    }

    /// The output in memory.
    pub fn memory(&self) -> (r: &[u8])
        ensures
            r@ == self@.memory,
    {
        self.memory.as_slice()
    }
}

/// How much of a file of a length is kept when it is cut.
pub fn retained_len(len: u64) -> (r: u64)
    ensures
        r == (if len < DISK_RETAIN_BYTES {
            len
        } else {
            DISK_RETAIN_BYTES
        }),
{
    if len < DISK_RETAIN_BYTES {
        len
    } else {
        DISK_RETAIN_BYTES
    }
}

/// The directory that output is stored in: below the cache directory, or else below the
/// storage directory, or below the home directory.
pub open spec fn output_root(
    storage: Option<Seq<char>>,
    cache: Option<Seq<char>>,
    home: Option<Seq<char>>,
) -> Seq<char> {
    match (cache, storage) {
        (Some(dir), _) => path_join(path_join(dir, "aft"@), "bash-output"@),
        (None, Some(dir)) => path_join(dir, "bash-output"@),
        (None, None) => path_join(
            path_join(
                path_join(
                    match home {
                        Some(h) => h,
                        None => "."@,
                    },
                    ".cache"@,
                ),
                "aft"@,
            ),
            "bash-output"@,
        ),
    }
}

/// The directory that output is stored in. `cache_dir` and `home` are the values of the
/// environment variables `AFT_CACHE_DIR` and `HOME`.
pub fn default_output_dir(
    storage_dir: Option<&str>,
    cache_dir: Option<&str>,
    home: Option<&str>,
) -> (r: String)
    ensures
        r@ == output_root(given_text(storage_dir), given_text(cache_dir), given_text(home)),
{
    if let Some(dir) = cache_dir {
        return join_path(join_path(dir, "aft").as_str(), "bash-output");
    }
    if let Some(dir) = storage_dir {
        return join_path(dir, "bash-output");
    }
    let base = match home {
        Some(h) => h,
        None => ".",
    };
    let cache = join_path(base, ".cache");
    join_path(join_path(cache.as_str(), "aft").as_str(), "bash-output")
}

/// While output goes to memory and nothing is lost, the memory holds all of it.
pub proof fn small_output_is_kept_whole(o: Output, chunk: Seq<u8>)
    requires
        !o.spilling,
        o.memory.len() + chunk.len() <= MEMORY_LIMIT_BYTES,
    ensures
        appended(o, chunk).0 == (Output { memory: o.memory + chunk, ..o }),
        appended(o, chunk).1 is Done,
{
    if chunk.len() == 0 {
        assert(o.memory + chunk =~= o.memory);
    }
}

/// Where the file cannot be opened, the latest output is still there.
pub proof fn latest_output_survives(o: Output, chunk: Seq<u8>)
    requires
        chunk.len() <= MEMORY_LIMIT_BYTES,
    ensures
        chunk.is_suffix_of(opened_for(o, chunk, None).0.memory),
{
    let kept = opened_for(o, chunk, None).0.memory;
    assert(chunk =~= kept.skip(kept.len() - chunk.len()));
}

/// A write that was planned leaves the file within its limit.
pub proof fn file_stays_within_its_limit(o: Output, chunk: Seq<u8>)
    ensures
        planned(o, chunk).1 is Write ==> {
            let b = planned(o, chunk).1->Write_0;
            &&& o.spilled + b.len() <= DISK_LIMIT_BYTES
            &&& b.is_prefix_of(chunk)
            &&& written(planned(o, chunk).0, b.len() as int, true).0.spilled <= DISK_LIMIT_BYTES
        },
{
    let plan = planned(o, chunk);
    if plan.1 is Write {
        let b = plan.1->Write_0;
        assert(b =~= chunk.take(b.len() as int));
    }
}

/// However an attempt to cut the file that output goes to ends, unless it is put off, output
/// that follows is taken, and what was lost is not forgotten.
pub proof fn rotation_recovers(o: Output, r: Rotation, chunk: Seq<u8>)
    requires
        o.spilling,
        chunk.len() > 0,
        !(r is FlushFailed),
    ensures
        rotated_by(o, r).rotated,
        !(r is Reopened) ==> rotated_by(o, r).spilled == 0 && !rotated_by(o, r).spilling,
        r is RetainFailed && chunk.len() <= MEMORY_LIMIT_BYTES ==> appended(
            rotated_by(o, r),
            chunk,
        ).0.memory == chunk,
{
    let after = rotated_by(o, r);
    if r is RetainFailed && chunk.len() <= MEMORY_LIMIT_BYTES {
        assert(after.memory + chunk =~= chunk);
    }
}

/// Output is kept in memory up to a mebibyte, and goes to a file beyond that, which holds a hundred
/// mebibytes at most.
pub proof fn output_is_kept_within_its_limits(o: Output, chunk: Seq<u8>)
    requires
        chunk.len() > 0,
    ensures
        !o.spilling && o.memory.len() + chunk.len() <= 1048576 ==> appended(o, chunk).1 is Done
            && appended(o, chunk).0.memory == o.memory + chunk,
        !o.spilling && o.memory.len() + chunk.len() > 1048576 ==> appended(o, chunk).1 is Open
            && appended(o, chunk).0 == o,
        o.spilling && o.spilled + chunk.len() <= 104857600 && o.spilled < 104857600 ==> appended(
            o,
            chunk,
        ) == (o, Act::Write(chunk)),
        o.spilling && o.spilled >= 104857600 ==> appended(o, chunk).1 is Done && appended(
            o,
            chunk,
        ).0.rotated,
        o.spilling && o.spilled < 104857600 && o.spilled + chunk.len() > 104857600 ==> appended(
            o,
            chunk,
        ).1 == Act::Write(chunk.take(104857600 - o.spilled)) && appended(o, chunk).0.rotated,
{
}

/// Once a file is opened it takes what comes; where none can be opened the latest output stays in
/// memory, and it is not forgotten that some was lost.
pub proof fn output_goes_on_behind_a_file(o: Output, chunk: Seq<u8>, len: u64)
    ensures
        len < 104857600 && len + chunk.len() <= 104857600 ==> opened_for(o, chunk, Some(len)).1
            == Act::Write(chunk),
        opened_for(o, chunk, Some(len)).0.spilling,
        opened_for(o, chunk, Some(len)).0.spilled == len,
        opened_for(o, chunk, Some(len)).0.memory.len() == 0,
        opened_for(o, chunk, None).1 is Done,
        opened_for(o, chunk, None).0.memory.is_suffix_of(o.memory + chunk),
        o.memory.len() + chunk.len() <= 1048576 ==> opened_for(o, chunk, None).0.memory == o.memory
            + chunk,
        o.memory.len() + chunk.len() > 1048576 ==> opened_for(o, chunk, None).0.memory.len()
            == 1048576 && opened_for(o, chunk, None).0.rotated,
{
    let all = o.memory + chunk;
    let kept = opened_for(o, chunk, None).0.memory;
    assert(all.subrange(all.len() - kept.len(), all.len() as int) =~= kept);
}

/// What was written to a file counts, and a file that is full is to be cut.
pub proof fn full_files_are_cut(o: Output, len: int)
    requires
        0 <= len,
        o.spilled + len <= u64::MAX,
    ensures
        written(o, len, true).0.spilled == o.spilled + len,
        o.spilled + len >= 104857600 ==> written(o, len, true).1 is Rotate,
        o.spilled + len < 104857600 ==> written(o, len, true).1 is Done,
        written(o, len, false) == (o, Act::Done),
{
}

/// The end of output in memory is its last bytes, as many as are asked for, and it is told whether
/// there is more.
pub proof fn ends_of_output_are_its_last_bytes(o: Output, max: int, file: Option<SpillTail>)
    requires
        max > 0,
        !o.spilling,
    ensures
        o.memory.len() <= max ==> tail_of(o, max, file) == (lossy_text(o.memory), o.rotated),
        o.memory.len() > max ==> tail_of(o, max, file) == (
            lossy_text(o.memory.subrange(o.memory.len() - max, o.memory.len() as int)),
            true,
        ),
{
    if o.memory.len() > max {
        assert(o.memory.skip(o.memory.len() - max) =~= o.memory.subrange(
            o.memory.len() - max,
            o.memory.len() as int,
        ));
    }
}

/// Output is stored below the cache directory where there is one, else below the storage directory,
/// else below the home directory.
pub proof fn output_is_stored_below_the_cache(
    storage: Option<Seq<char>>,
    cache: Option<Seq<char>>,
    home: Option<Seq<char>>,
)
    ensures
        cache is Some ==> output_root(storage, cache, home) == path_join(
            path_join(cache->0, "aft"@),
            "bash-output"@,
        ),
        cache is None && storage is Some ==> output_root(storage, cache, home) == path_join(
            storage->0,
            "bash-output"@,
        ),
        cache is None && storage is None && home is Some ==> output_root(storage, cache, home)
            == path_join(
            path_join(path_join(home->0, ".cache"@), "aft"@),
            "bash-output"@,
        ),
{
}

} // verus!
