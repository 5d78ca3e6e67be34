use aft::bash_background::buffer::{
    default_output_dir, retained_len, BgBuffer, BufferAction, Rotation, SpillTail, StreamKind,
    DISK_LIMIT_BYTES, DISK_RETAIN_BYTES, MEMORY_LIMIT_BYTES,
};

/// A file that output goes to, in the place of a file system.
struct Disk {
    file: Option<Vec<u8>>,
}

impl Disk {
    fn perform(&mut self, buffer: &mut BgBuffer, chunk: &[u8], first: BufferAction) -> bool {
        let mut action = first;
        loop {
            match action {
                BufferAction::Done => return false,
                BufferAction::Open => {
                    let file = self.file.get_or_insert_with(Vec::new);
                    file.extend_from_slice(buffer.memory());
                    let len = file.len() as u64;
                    action = buffer.spill_opened(chunk, Some(len));
                }
                BufferAction::Write(bytes) => {
                    self.file.as_mut().unwrap().extend_from_slice(&bytes);
                    action = buffer.chunk_written(bytes.len(), true);
                }
                BufferAction::Rotate => return true,
            }
        }
    }

    fn append(&mut self, buffer: &mut BgBuffer, chunk: &[u8]) -> bool {
        let first = buffer.append(StreamKind::Stdout, chunk);
        self.perform(buffer, chunk, first)
    }
}

fn spilled(task: &str, dir: &str) -> (BgBuffer, Disk) {
    let mut buffer = BgBuffer::new(task, dir);
    let mut disk = Disk { file: None };
    disk.append(&mut buffer, &vec![b'a'; MEMORY_LIMIT_BYTES + 1]);
    (buffer, disk)
}

#[test]
fn rotate_spill_file_reopen_failure_preserves_consistent_fallback_state() {
    let (mut buffer, mut disk) = spilled("rotate-reopen-fails", "/out");

    buffer.rotate_spill_file(Rotation::ReopenFailed(disk.file.take()));

    assert!(buffer.spill_path().is_none());
    assert_eq!(buffer.total_len(), buffer.memory().len() as u64);
    assert!(buffer.memory().len() <= MEMORY_LIMIT_BYTES);
    assert!(buffer.was_rotated());
    assert!(disk.file.is_none());

    disk.append(&mut buffer, b"after-failure");
    assert!(buffer.total_len() > 0);
    let end = disk.file.as_ref().unwrap();
    let tail = SpillTail {
        len: end.len() as u64,
        bytes: Some(end[end.len() - 64..].to_vec()),
    };
    assert!(buffer.read_tail(64, Some(tail)).0.contains("after-failure"));
}

#[test]
fn reopen_failure_keeps_the_end_of_the_output() {
    let (mut buffer, mut disk) = spilled("rotate-reopen-fails", "/out");
    buffer.rotate_spill_file(Rotation::ReopenFailed(Some(vec![b'k'; 10])));
    disk.file = None;
    assert!(!disk.append(&mut buffer, b"after-failure"));
    let (tail, truncated) = buffer.read_tail(64, None);
    assert_eq!(tail, "kkkkkkkkkkafter-failure");
    assert!(truncated);
}

#[test]
fn rotate_spill_file_retain_failure_deletes_orphan_and_recovers() {
    let (mut buffer, mut disk) = spilled("rotate-retain-fails", "/out");
    assert!(disk.file.is_some());

    disk.file = None;
    buffer.rotate_spill_file(Rotation::RetainFailed);

    assert!(buffer.spill_path().is_none());
    assert_eq!(buffer.total_len(), 0);
    assert!(buffer.was_rotated());

    disk.append(&mut buffer, b"after-retain-failure");
    assert!(buffer.read_tail(64, None).0.contains("after-retain-failure"));
}

#[test]
fn open_spill_appends_without_truncating_existing_file() {
    let mut buffer = BgBuffer::new("existing-spill", "/out");
    let mut disk = Disk { file: Some(b"preexisting-".to_vec()) };

    disk.append(&mut buffer, &vec![b'n'; MEMORY_LIMIT_BYTES + 1]);
    let contents = disk.file.unwrap();

    assert!(contents.starts_with(b"preexisting-"));
    assert!(contents.len() > MEMORY_LIMIT_BYTES);
    assert_eq!(buffer.total_len(), contents.len() as u64);
    assert_eq!(buffer.spill_path().unwrap(), "/out/existing-spill.log");
}

#[test]
fn small_output_stays_in_memory() {
    let mut buffer = BgBuffer::new("t", "/out");
    assert!(matches!(buffer.append(StreamKind::Stdout, b"one "), BufferAction::Done));
    assert!(matches!(buffer.append(StreamKind::Stderr, b"two"), BufferAction::Done));
    assert_eq!(buffer.read_tail(100, None), ("one two".to_string(), false));
    assert_eq!(buffer.read_tail(3, None), ("two".to_string(), true));
    assert_eq!(buffer.read_tail(0, None), (String::new(), true));
    assert_eq!(buffer.read_all(Err("unused".to_string())).unwrap(), "one two");
}

#[test]
fn bytes_that_are_no_text_are_shown() {
    let mut buffer = BgBuffer::new("t", "/out");
    buffer.append(StreamKind::Stdout, &[b'a', 0xff, b'b']);
    assert_eq!(buffer.read_tail(10, None).0, "a\u{fffd}b");
}

#[test]
fn output_without_a_file_keeps_its_end() {
    let mut buffer = BgBuffer::new("t", "/out");
    let chunk = vec![b'x'; MEMORY_LIMIT_BYTES];
    assert!(matches!(buffer.append(StreamKind::Stdout, &chunk), BufferAction::Done));
    assert!(matches!(buffer.append(StreamKind::Stdout, b"end"), BufferAction::Open));
    assert!(matches!(buffer.spill_opened(b"end", None), BufferAction::Done));
    assert_eq!(buffer.memory().len(), MEMORY_LIMIT_BYTES);
    assert!(buffer.was_rotated());
    assert_eq!(buffer.read_tail(4, None), ("xend".to_string(), true));
}

#[test]
fn a_full_file_is_cut() {
    let (mut buffer, _) = spilled("t", "/out");
    buffer.rotate_spill_file(Rotation::Reopened(DISK_LIMIT_BYTES - 2));
    match buffer.append(StreamKind::Stdout, b"abcdef") {
        BufferAction::Write(bytes) => assert_eq!(bytes, b"ab".to_vec()),
        _ => panic!("expected a write"),
    }
    assert!(matches!(buffer.chunk_written(2, true), BufferAction::Rotate));
    assert!(matches!(buffer.append(StreamKind::Stdout, b"lost"), BufferAction::Done));
    buffer.rotate_spill_file(Rotation::Reopened(DISK_RETAIN_BYTES));
    assert_eq!(buffer.total_len(), DISK_RETAIN_BYTES);
    assert!(buffer.was_rotated());
}

#[test]
fn a_failed_write_is_not_counted() {
    let (mut buffer, _) = spilled("t", "/out");
    let before = buffer.total_len();
    assert!(matches!(buffer.append(StreamKind::Stdout, b"abc"), BufferAction::Write(_)));
    assert!(matches!(buffer.chunk_written(3, false), BufferAction::Done));
    assert_eq!(buffer.total_len(), before);
    buffer.rotate_spill_file(Rotation::FlushFailed);
    assert_eq!(buffer.total_len(), before);
}

#[test]
fn the_end_of_a_file_is_read() {
    let (buffer, _) = spilled("t", "/out");
    let tail = SpillTail { len: 20, bytes: Some(b"tail".to_vec()) };
    assert_eq!(buffer.read_tail(4, Some(tail)), ("tail".to_string(), true));
    let whole = SpillTail { len: 4, bytes: Some(b"tail".to_vec()) };
    assert_eq!(buffer.read_tail(4, Some(whole)), ("tail".to_string(), false));
    let unread = SpillTail { len: 20, bytes: None };
    assert_eq!(buffer.read_tail(4, Some(unread)), (String::new(), true));
    assert_eq!(buffer.read_tail(4, None), (String::new(), false));
    assert_eq!(buffer.read_all(Ok(b"all".to_vec())).unwrap(), "all");
    assert_eq!(buffer.read_all(Err("gone".to_string())).unwrap_err(), "gone");
}

#[test]
fn the_retained_length_has_a_limit() {
    assert_eq!(retained_len(10), 10);
    assert_eq!(retained_len(DISK_LIMIT_BYTES), DISK_RETAIN_BYTES);
}

#[test]
fn output_goes_below_the_cache_directory() {
    assert_eq!(
        default_output_dir(Some("/s"), Some("/c"), Some("/home/u")),
        "/c/aft/bash-output"
    );
    assert_eq!(default_output_dir(Some("/s"), None, Some("/home/u")), "/s/bash-output");
    assert_eq!(
        default_output_dir(None, None, Some("/home/u")),
        "/home/u/.cache/aft/bash-output"
    );
    assert_eq!(default_output_dir(None, None, None), "./.cache/aft/bash-output");
}
