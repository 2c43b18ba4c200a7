//! Dispatcher-level behavior: creation rules, attribute updates, removal,
//! renaming, and directory listing.

use synthfs::errors::FsError;
use synthfs::attrs::FileType;
use synthfs::main_fs::MainFs;

#[test]
fn root_exists_and_is_a_directory() {
    let fs = MainFs::new(0, 0);
    let attr = fs.getattr(1).unwrap();
    assert_eq!(attr.ino, 1);
    assert_eq!(attr.kind, FileType::Directory);
    assert_eq!(attr.size, 0);
}

#[test]
fn getattr_of_missing_ino_is_not_found() {
    let fs = MainFs::new(0, 0);
    assert_eq!(fs.getattr(99), Err(FsError::NotFound));
}

#[test]
fn mknod_without_escape_in_plain_dir_is_denied() {
    let mut fs = MainFs::new(0, 0);
    assert_eq!(fs.mknod(1, b"notes", 0o644, 1, 1), Err(FsError::PermissionDenied));
    assert_eq!(fs.lookup(1, b"notes"), Err(FsError::NotFound));
}

#[test]
fn mknod_with_escaped_name_succeeds() {
    let mut fs = MainFs::new(0, 0);
    let attr = fs.mknod(1, b"_notes", 0o644, 5, 6).unwrap();
    assert_eq!(attr.ino, 2);
    assert_eq!(attr.kind, FileType::RegularFile);
    assert_eq!(attr.size, 0);
    assert_eq!(attr.uid, 5);
    assert_eq!(attr.gid, 6);
    let found = fs.lookup(1, b"_notes").unwrap();
    assert_eq!(found.ino, 2);
}

#[test]
fn mkdir_with_escape_makes_a_sandbox() {
    let mut fs = MainFs::new(0, 0);
    let dir = fs.mkdir(1, b"_play", 0o755, 1, 1).unwrap();
    assert_eq!(dir.kind, FileType::Directory);
    // Inside the sandbox any name is allowed.
    let file = fs.mknod(dir.ino, b"anything", 0o644, 1, 1).unwrap();
    assert_eq!(fs.lookup(dir.ino, b"anything").unwrap().ino, file.ino);
    // A directory made inside a sandbox is a sandbox too.
    let sub = fs.mkdir(dir.ino, b"sub", 0o755, 1, 1).unwrap();
    assert!(fs.mknod(sub.ino, b"deep", 0o644, 1, 1).is_ok());
}

#[test]
fn mknod_under_file_is_not_supported() {
    let mut fs = MainFs::new(0, 0);
    let f = fs.mknod(1, b"_f", 0o644, 1, 1).unwrap();
    assert_eq!(fs.mknod(f.ino, b"_child", 0o644, 1, 1), Err(FsError::NotSupported));
}

#[test]
fn setattr_updates_mode_and_owners() {
    let mut fs = MainFs::new(0, 0);
    let f = fs.mknod(1, b"_f", 0o644, 1, 1).unwrap();
    let attr = fs
        .setattr(f.ino, Some(0o600), Some(10), Some(11), None, None, Some(3))
        .unwrap();
    assert_eq!(attr.perm, 0o600);
    assert_eq!(attr.uid, 10);
    assert_eq!(attr.gid, 11);
    assert_eq!(attr.flags, 3);
}

#[test]
fn setattr_resizes_a_buffer_file() {
    let mut fs = MainFs::new(0, 0);
    let f = fs.mknod(1, b"_f", 0o644, 1, 1).unwrap();
    fs.write(f.ino, 0, b"hello").unwrap();
    let grown = fs.setattr(f.ino, None, None, None, Some(8), None, None).unwrap();
    assert_eq!(grown.size, 8);
    let (bytes, _) = fs.read(f.ino, 0, 100).unwrap();
    assert_eq!(bytes, b"hello\0\0\0".to_vec());
    let shrunk = fs.setattr(f.ino, None, None, None, Some(2), None, None).unwrap();
    assert_eq!(shrunk.size, 2);
    let (bytes, _) = fs.read(f.ino, 0, 100).unwrap();
    assert_eq!(bytes, b"he".to_vec());
}

#[test]
fn setattr_size_on_directory_is_not_supported() {
    let mut fs = MainFs::new(0, 0);
    let d = fs.mkdir(1, b"_d", 0o755, 1, 1).unwrap();
    assert_eq!(
        fs.setattr(d.ino, None, None, None, Some(4), None, None),
        Err(FsError::NotSupported)
    );
}

#[test]
fn unlink_removes_a_buffer_file() {
    let mut fs = MainFs::new(0, 0);
    let f = fs.mknod(1, b"_f", 0o644, 1, 1).unwrap();
    assert_eq!(fs.unlink(1, b"_f"), Ok(()));
    assert_eq!(fs.lookup(1, b"_f"), Err(FsError::NotFound));
    assert_eq!(fs.getattr(f.ino), Err(FsError::NotFound));
}

#[test]
fn unlink_of_refused_deletion_rolls_back() {
    let mut fs = MainFs::new(0, 0);
    let trigger = synthfs::file_helpers::text_file("_keep", "payload\n", 0, 0);
    let ino = synthfs::background_tasks::add_file(&mut fs, b"", trigger).unwrap();
    // A trigger file refuses deletion; the unlink must leave it listed.
    assert_eq!(fs.unlink(1, b"_keep"), Err(FsError::PermissionDenied));
    assert_eq!(fs.lookup(1, b"_keep").unwrap().ino, ino);
    assert!(fs.getattr(ino).is_ok());
}

#[test]
fn rmdir_of_non_empty_directory_is_refused_and_changes_nothing() {
    let mut fs = MainFs::new(0, 0);
    let d = fs.mkdir(1, b"_d", 0o755, 1, 1).unwrap();
    let f = fs.mknod(d.ino, b"inner", 0o644, 1, 1).unwrap();
    assert_eq!(fs.rmdir(1, b"_d"), Err(FsError::NotEmpty));
    assert_eq!(fs.lookup(1, b"_d").unwrap().ino, d.ino);
    assert_eq!(fs.lookup(d.ino, b"inner").unwrap().ino, f.ino);
}

#[test]
fn rmdir_of_empty_directory_succeeds() {
    let mut fs = MainFs::new(0, 0);
    let d = fs.mkdir(1, b"_d", 0o755, 1, 1).unwrap();
    assert_eq!(fs.rmdir(1, b"_d"), Ok(()));
    assert_eq!(fs.lookup(1, b"_d"), Err(FsError::NotFound));
    assert_eq!(fs.getattr(d.ino), Err(FsError::NotFound));
}

#[test]
fn rmdir_of_a_file_is_not_supported() {
    let mut fs = MainFs::new(0, 0);
    fs.mknod(1, b"_f", 0o644, 1, 1).unwrap();
    assert_eq!(fs.rmdir(1, b"_f"), Err(FsError::NotSupported));
}

#[test]
fn rename_into_plain_directory_needs_escape() {
    let mut fs = MainFs::new(0, 0);
    fs.mknod(1, b"_f", 0o644, 1, 1).unwrap();
    assert_eq!(fs.rename(1, b"_f", 1, b"plain"), Err(FsError::PermissionDenied));
    // The original name still resolves.
    assert!(fs.lookup(1, b"_f").is_ok());
    assert_eq!(fs.rename(1, b"_f", 1, b"_renamed"), Ok(()));
    assert!(fs.lookup(1, b"_renamed").is_ok());
    assert_eq!(fs.lookup(1, b"_f"), Err(FsError::NotFound));
}

#[test]
fn rename_moves_between_directories() {
    let mut fs = MainFs::new(0, 0);
    let play = fs.mkdir(1, b"_play", 0o755, 1, 1).unwrap();
    let f = fs.mknod(1, b"_f", 0o644, 1, 1).unwrap();
    assert_eq!(fs.rename(1, b"_f", play.ino, b"inside"), Ok(()));
    assert_eq!(fs.lookup(play.ino, b"inside").unwrap().ino, f.ino);
    assert_eq!(fs.lookup(1, b"_f"), Err(FsError::NotFound));
}

#[test]
fn rename_evaluates_the_destination_sandbox_flag() {
    let mut fs = MainFs::new(0, 0);
    let play = fs.mkdir(1, b"_play", 0o755, 1, 1).unwrap();
    let f = fs.mknod(play.ino, b"inner", 0o644, 1, 1).unwrap();
    // Moving out of the sandbox to the plain root under a plain name fails.
    assert_eq!(fs.rename(play.ino, b"inner", 1, b"plain"), Err(FsError::PermissionDenied));
    assert_eq!(fs.lookup(play.ino, b"inner").unwrap().ino, f.ino);
    // Renaming within the sandbox needs no escape.
    assert_eq!(fs.rename(play.ino, b"inner", play.ino, b"loose"), Ok(()));
    assert_eq!(fs.lookup(play.ino, b"loose").unwrap().ino, f.ino);
}

#[test]
fn directory_renamed_under_sandbox_becomes_sandbox_for_good() {
    let mut fs = MainFs::new(0, 0);
    // An escaped directory is a sandbox from birth.
    let d = fs.mkdir(1, b"_d", 0o755, 1, 1).unwrap();
    // Renaming it to a plain name inside a sandbox parent keeps the flag on:
    let play = fs.mkdir(1, b"_play", 0o755, 1, 1).unwrap();
    assert_eq!(fs.rename(1, b"_d", play.ino, b"plain"), Ok(()));
    // Still a sandbox: creating a plain-named file inside works.
    assert!(fs.mknod(d.ino, b"loose", 0o644, 1, 1).is_ok());
    // And no sequence of renames turns the flag back off.
    assert_eq!(fs.rename(play.ino, b"plain", play.ino, b"other"), Ok(()));
    assert!(fs.mknod(d.ino, b"loose2", 0o644, 1, 1).is_ok());
}

#[test]
fn rename_directly_under_itself_is_refused() {
    let mut fs = MainFs::new(0, 0);
    let d = fs.mkdir(1, b"_d", 0o755, 1, 1).unwrap();
    assert_eq!(fs.rename(1, b"_d", d.ino, b"_loop"), Err(FsError::NotSupported));
    assert!(fs.lookup(1, b"_d").is_ok());
}

#[test]
fn readdir_lists_children_in_insertion_order() {
    let mut fs = MainFs::new(0, 0);
    let a = fs.mknod(1, b"_a", 0o644, 1, 1).unwrap();
    let b = fs.mkdir(1, b"_b", 0o755, 1, 1).unwrap();
    let entries = fs.readdir(1, 0).unwrap();
    assert_eq!(entries.len(), 2);
    assert_eq!(entries[0].ino, a.ino);
    assert_eq!(entries[0].name, b"_a".to_vec());
    assert_eq!(entries[0].kind, FileType::RegularFile);
    assert_eq!(entries[0].next_offset, 1);
    assert_eq!(entries[1].ino, b.ino);
    assert_eq!(entries[1].kind, FileType::Directory);
    assert_eq!(entries[1].next_offset, 2);
}

#[test]
fn readdir_resumes_from_an_offset() {
    let mut fs = MainFs::new(0, 0);
    fs.mknod(1, b"_a", 0o644, 1, 1).unwrap();
    let b = fs.mknod(1, b"_b", 0o644, 1, 1).unwrap();
    let entries = fs.readdir(1, 1).unwrap();
    assert_eq!(entries.len(), 1);
    assert_eq!(entries[0].ino, b.ino);
    assert!(fs.readdir(1, 5).unwrap().is_empty());
    assert_eq!(fs.readdir(1, -1).unwrap_err(), FsError::NotSupported);
}

#[test]
fn readdir_of_a_file_is_not_supported() {
    let mut fs = MainFs::new(0, 0);
    fs.mknod(1, b"_f", 0o644, 1, 1).unwrap();
    let f = fs.lookup(1, b"_f").unwrap();
    assert_eq!(fs.readdir(f.ino, 0).unwrap_err(), FsError::NotSupported);
}

#[test]
fn directory_size_tracks_child_count() {
    let mut fs = MainFs::new(0, 0);
    fs.mknod(1, b"_a", 0o644, 1, 1).unwrap();
    fs.mknod(1, b"_b", 0o644, 1, 1).unwrap();
    assert_eq!(fs.getattr(1).unwrap().size, 2);
    fs.unlink(1, b"_a").unwrap();
    assert_eq!(fs.getattr(1).unwrap().size, 1);
}

#[test]
fn allocated_inos_are_all_distinct() {
    let mut fs = MainFs::new(0, 0);
    let mut seen = Vec::new();
    for i in 0..20u8 {
        let name = vec![b'_', b'0' + (i % 10), b'0' + (i / 10)];
        let attr = fs.mknod(1, &name, 0o644, 1, 1).unwrap();
        assert!(!seen.contains(&attr.ino));
        seen.push(attr.ino);
    }
}
