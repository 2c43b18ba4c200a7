//! Path walking: the background insert and remove entry points, component
//! parsing, and the end-to-end scenarios they enable.

use synthfs::background_tasks::{add_file, parse_components, rm_file, run_command};
use synthfs::errors::FsError;
use synthfs::attrs::FileType;
use synthfs::file_helpers::{str_to_vec, text_file};
use synthfs::files::FileNode;
use synthfs::main_fs::MainFs;
use synthfs::trigger_file::{Command, TriggerFile};
use synthfs::user_files::UserFile;

#[test]
fn components_split_on_slashes_and_drop_dot_segments() {
    let comps = parse_components(b"a/bb/./../c//");
    assert_eq!(comps, vec![b"a".to_vec(), b"bb".to_vec(), b"c".to_vec()]);
    assert!(parse_components(b"").is_empty());
    assert!(parse_components(b"/").is_empty());
    assert!(parse_components(b"./..").is_empty());
    assert_eq!(parse_components(b"/x"), vec![b"x".to_vec()]);
}

#[test]
fn insert_materializes_missing_directories() {
    let mut fs = MainFs::new(0, 0);
    let file = FileNode::User(UserFile::new(str_to_vec("Toilet"), 0, 0o644, 1, 1, 0));
    let ino = add_file(&mut fs, b"Bathroom/Toilet", file).unwrap();
    // The implicit directories exist and lead to the file.
    let bathroom = fs.lookup(1, b"Bathroom").unwrap();
    assert_eq!(bathroom.kind, FileType::Directory);
    let toilet_dir = fs.lookup(bathroom.ino, b"Toilet").unwrap();
    assert_eq!(toilet_dir.kind, FileType::Directory);
    assert_eq!(fs.lookup(toilet_dir.ino, b"Toilet").unwrap().ino, ino);
    // The root lists exactly one entry, named Bathroom.
    let entries = fs.readdir(1, 0).unwrap();
    assert_eq!(entries.len(), 1);
    assert_eq!(entries[0].name, b"Bathroom".to_vec());
}

#[test]
fn insert_at_empty_path_lands_in_the_root() {
    let mut fs = MainFs::new(0, 0);
    let ino = add_file(&mut fs, b"", text_file("Welcome", "hi\n", 0, 0)).unwrap();
    assert_eq!(fs.lookup(1, b"Welcome").unwrap().ino, ino);
}

#[test]
fn insert_reuses_an_existing_directory() {
    let mut fs = MainFs::new(0, 0);
    add_file(&mut fs, b"Room", text_file("a", "1\n", 0, 0)).unwrap();
    add_file(&mut fs, b"Room", text_file("b", "2\n", 0, 0)).unwrap();
    let room = fs.lookup(1, b"Room").unwrap();
    let entries = fs.readdir(room.ino, 0).unwrap();
    assert_eq!(entries.len(), 2);
    assert_eq!(fs.readdir(1, 0).unwrap().len(), 1);
}

#[test]
fn insert_through_a_file_fails() {
    let mut fs = MainFs::new(0, 0);
    add_file(&mut fs, b"", text_file("blocker", "x\n", 0, 0)).unwrap();
    let r = add_file(&mut fs, b"blocker/inner", text_file("f", "y\n", 0, 0));
    assert_eq!(r, Err(FsError::NotSupported));
}

#[test]
fn remove_unlinks_and_deletes() {
    let mut fs = MainFs::new(0, 0);
    let ino = add_file(&mut fs, b"Room", text_file("gone", "x\n", 0, 0)).unwrap();
    let room = fs.lookup(1, b"Room").unwrap();
    assert_eq!(rm_file(&mut fs, b"Room/gone"), Ok(()));
    assert_eq!(fs.lookup(room.ino, b"gone"), Err(FsError::NotFound));
    assert_eq!(fs.getattr(ino), Err(FsError::NotFound));
}

#[test]
fn remove_of_missing_paths_fails_quietly() {
    let mut fs = MainFs::new(0, 0);
    assert_eq!(rm_file(&mut fs, b"no/such/file"), Err(FsError::NotFound));
    assert_eq!(rm_file(&mut fs, b""), Err(FsError::NotFound));
    assert_eq!(rm_file(&mut fs, b"absent"), Err(FsError::NotFound));
}

#[test]
fn trigger_side_effect_becomes_visible_after_its_task_runs() {
    let mut fs = MainFs::new(0, 0);
    // A trigger at the root whose callback inserts a sibling.
    let on_fire = vec![Command::Insert {
        path: str_to_vec(""),
        node: text_file("Y", "made\n", 0, 0),
    }];
    let trigger = FileNode::Trigger(TriggerFile::new(
        on_fire,
        str_to_vec("X"),
        str_to_vec("payload"),
        0o644,
        0,
        0,
        0,
    ));
    let x = add_file(&mut fs, b"", trigger).unwrap();
    assert_eq!(fs.lookup(1, b"Y"), Err(FsError::NotFound));
    // Read it once, at an offset within the payload.
    let (_, cmds) = fs.read(x, 0, 4).unwrap();
    assert_eq!(cmds.len(), 1);
    // The side effect appears once the scheduled task has run.
    for cmd in cmds {
        run_command(&mut fs, cmd).unwrap();
    }
    assert!(fs.lookup(1, b"Y").is_ok());
    // Reading again schedules nothing more.
    let (_, cmds) = fs.read(x, 0, 4).unwrap();
    assert!(cmds.is_empty());
}

#[test]
fn scheduled_remove_command_takes_a_file_out() {
    let mut fs = MainFs::new(0, 0);
    add_file(&mut fs, b"", text_file("doomed", "x\n", 0, 0)).unwrap();
    run_command(&mut fs, Command::Remove { path: str_to_vec("doomed") }).unwrap();
    assert_eq!(fs.lookup(1, b"doomed"), Err(FsError::NotFound));
}
