//! Byte-level file behavior and the one-shot trigger.

use synthfs::errors::FsError;
use synthfs::file_helpers::{read, str_to_vec, text_file, victory_file};
use synthfs::files::FileNode;
use synthfs::main_fs::MainFs;
use synthfs::trigger_file::{Command, TriggerFile};
use synthfs::user_files::UserFile;

fn fs_with_file(data: &[u8]) -> (MainFs, u64) {
    let mut fs = MainFs::new(0, 0);
    let attr = fs.mknod(1, b"_f", 0o644, 1, 1).unwrap();
    if !data.is_empty() {
        fs.write(attr.ino, 0, data).unwrap();
    }
    (fs, attr.ino)
}

#[test]
fn write_then_read_round_trips() {
    let (mut fs, ino) = fs_with_file(b"");
    assert_eq!(fs.write(ino, 3, b"abc"), Ok(3));
    let (bytes, _) = fs.read(ino, 3, 3).unwrap();
    assert_eq!(bytes, b"abc".to_vec());
}

#[test]
fn write_past_end_zero_fills_the_gap() {
    let (mut fs, ino) = fs_with_file(b"xy");
    fs.write(ino, 5, b"zz").unwrap();
    assert_eq!(fs.getattr(ino).unwrap().size, 7);
    let (bytes, _) = fs.read(ino, 0, 100).unwrap();
    assert_eq!(bytes, b"xy\0\0\0zz".to_vec());
}

#[test]
fn write_overwrites_in_place() {
    let (mut fs, ino) = fs_with_file(b"abcdef");
    fs.write(ino, 2, b"XY").unwrap();
    let (bytes, _) = fs.read(ino, 0, 100).unwrap();
    assert_eq!(bytes, b"abXYef".to_vec());
}

#[test]
fn write_at_negative_offset_is_refused() {
    let (mut fs, ino) = fs_with_file(b"abc");
    assert_eq!(fs.write(ino, -1, b"x"), Err(FsError::NotSupported));
    let (bytes, _) = fs.read(ino, 0, 100).unwrap();
    assert_eq!(bytes, b"abc".to_vec());
}

#[test]
fn read_at_or_beyond_end_is_empty_not_an_error() {
    let (mut fs, ino) = fs_with_file(b"abc");
    assert_eq!(fs.read(ino, 3, 10).unwrap().0, Vec::<u8>::new());
    assert_eq!(fs.read(ino, 100, 10).unwrap().0, Vec::<u8>::new());
    assert_eq!(fs.read(ino, -2, 10).unwrap().0, Vec::<u8>::new());
}

#[test]
fn read_clamps_to_the_end() {
    let (mut fs, ino) = fs_with_file(b"abcdef");
    assert_eq!(fs.read(ino, 4, 10).unwrap().0, b"ef".to_vec());
    assert_eq!(fs.read(ino, 0, 2).unwrap().0, b"ab".to_vec());
}

#[test]
fn read_and_write_on_a_directory_are_not_supported() {
    let mut fs = MainFs::new(0, 0);
    let d = fs.mkdir(1, b"_d", 0o755, 1, 1).unwrap();
    assert_eq!(fs.read(d.ino, 0, 10).unwrap_err(), FsError::NotSupported);
    assert_eq!(fs.write(d.ino, 0, b"x"), Err(FsError::NotSupported));
}

#[test]
fn range_read_helper_matches_the_slice() {
    assert_eq!(read(b"hello", 0, 5), Ok(b"hello".to_vec()));
    assert_eq!(read(b"hello", 1, 2), Ok(b"el".to_vec()));
    assert_eq!(read(b"hello", 4, 10), Ok(b"o".to_vec()));
    assert_eq!(read(b"hello", 5, 1), Ok(Vec::new()));
    assert_eq!(read(b"hello", -3, 1), Ok(Vec::new()));
}

#[test]
fn str_to_vec_gives_the_bytes() {
    assert_eq!(str_to_vec("abc"), b"abc".to_vec());
    assert_eq!(str_to_vec(""), Vec::<u8>::new());
}

#[test]
fn user_file_new_is_zero_filled() {
    let f = UserFile::new(str_to_vec("_f"), 4, 0o644, 1, 1, 0);
    assert_eq!(f.data, vec![0u8; 4]);
    assert_eq!(f.meta.name, b"_f".to_vec());
    assert_eq!(f.meta.perm, 0o644);
}

#[test]
fn trigger_fires_exactly_once() {
    let mut t = TriggerFile::new(
        vec![Command::Remove { path: str_to_vec("x") }],
        str_to_vec("t"),
        str_to_vec("payload"),
        0o644,
        0,
        0,
        0,
    );
    assert!(!t.triggered);
    let (bytes, cmds) = t.read(0, 4);
    assert_eq!(bytes, b"payl".to_vec());
    assert_eq!(cmds.len(), 1);
    assert!(t.triggered);
    // Any number of further reads fires nothing.
    for _ in 0..3 {
        let (_, cmds) = t.read(0, 4);
        assert!(cmds.is_empty());
    }
}

#[test]
fn trigger_fires_on_a_zero_byte_read_at_end_of_file() {
    let mut t = TriggerFile::new(
        vec![Command::Remove { path: str_to_vec("x") }],
        str_to_vec("t"),
        str_to_vec("abc"),
        0o644,
        0,
        0,
        0,
    );
    let (bytes, cmds) = t.read(3, 10);
    assert!(bytes.is_empty());
    assert_eq!(cmds.len(), 1);
    assert!(t.triggered);
}

#[test]
fn trigger_does_not_fire_out_of_range() {
    let mut t = TriggerFile::new(
        vec![Command::Remove { path: str_to_vec("x") }],
        str_to_vec("t"),
        str_to_vec("abc"),
        0o644,
        0,
        0,
        0,
    );
    let (bytes, cmds) = t.read(4, 10);
    assert!(bytes.is_empty());
    assert!(cmds.is_empty());
    assert!(!t.triggered);
    let (bytes, cmds) = t.read(-1, 10);
    assert!(bytes.is_empty());
    assert!(cmds.is_empty());
    assert!(!t.triggered);
}

#[test]
fn trigger_refuses_writes_attribute_changes_and_deletion() {
    let mut fs = MainFs::new(0, 0);
    let t = text_file("_t", "data\n", 0, 0);
    let ino = synthfs::background_tasks::add_file(&mut fs, b"", t).unwrap();
    assert_eq!(fs.write(ino, 0, b"x"), Err(FsError::PermissionDenied));
    assert_eq!(
        fs.setattr(ino, Some(0o600), None, None, None, None, None),
        Err(FsError::PermissionDenied)
    );
    assert_eq!(fs.unlink(1, b"_t"), Err(FsError::PermissionDenied));
}

#[test]
fn trigger_rename_follows_the_shared_rule() {
    let mut fs = MainFs::new(0, 0);
    let t = text_file("_t", "data\n", 0, 0);
    let ino = synthfs::background_tasks::add_file(&mut fs, b"", t).unwrap();
    assert_eq!(fs.rename(1, b"_t", 1, b"plain"), Err(FsError::PermissionDenied));
    assert_eq!(fs.rename(1, b"_t", 1, b"_renamed"), Ok(()));
    assert_eq!(fs.lookup(1, b"_renamed").unwrap().ino, ino);
}

#[test]
fn victory_file_holds_the_reward_text() {
    match victory_file(3, 4) {
        FileNode::Trigger(t) => {
            assert_eq!(t.meta.name, b"Victory".to_vec());
            assert_eq!(t.data, b"Congradulations you have beaten this module!\n".to_vec());
            assert!(!t.triggered);
            assert!(t.on_fire.is_empty());
            assert_eq!(t.meta.uid, 3);
            assert_eq!(t.meta.gid, 4);
        },
        _ => panic!("expected a trigger file"),
    }
}

#[test]
fn link_nodes_rename_but_refuse_everything_else() {
    let mut link = synthfs::link::Link {
        meta: synthfs::attrs::Meta::new(b"_ln".to_vec(), 0o777, 1, 1, 0),
    };
    assert_eq!(link.setattr(Some(0o600), None, None, None, None, None), Err(FsError::NotSupported));
    assert_eq!(link.meta.perm, 0o777);
    assert_eq!(link.delete(), Err(FsError::NotSupported));
    // A link renames unconditionally, sandbox or not.
    assert_eq!(link.rename(b"plain", false), Ok(()));
    assert_eq!(link.meta.name, b"plain".to_vec());
}

#[test]
fn empty_trigger_file_still_fires_on_its_first_read() {
    let mut t = TriggerFile::new(
        vec![Command::Remove { path: str_to_vec("x") }],
        str_to_vec("t"),
        Vec::new(),
        0o644,
        0,
        0,
        0,
    );
    // The only in-range offset of an empty payload is zero; the read returns
    // nothing and still counts as the one successful read.
    let (bytes, cmds) = t.read(0, 16);
    assert!(bytes.is_empty());
    assert_eq!(cmds.len(), 1);
    assert!(t.triggered);
}

#[test]
fn empty_name_is_never_escaped() {
    let mut fs = MainFs::new(0, 0);
    // Outside a sandbox an empty name cannot satisfy the escape convention.
    assert_eq!(fs.mknod(1, b"", 0o644, 1, 1), Err(FsError::PermissionDenied));
    // Inside a sandbox the rule does not apply.
    let play = fs.mkdir(1, b"_play", 0o755, 1, 1).unwrap();
    assert!(fs.mknod(play.ino, b"", 0o644, 1, 1).is_ok());
}
