//! The content modules populate their corners of the tree through the
//! engine's entry points.

use synthfs::errors::FsError;
use synthfs::main_fs::MainFs;
use synthfs::modules::{bathroom, classroom, many_open, start_mod};

#[test]
fn bathroom_populates_stalls_and_mess() {
    let mut fs = MainFs::new(0, 0);
    bathroom::start(&mut fs);
    let bathroom_dir = fs.lookup(1, b"Bathroom").unwrap();
    assert!(fs.lookup(bathroom_dir.ino, b"Plummer").is_ok());
    let stall3 = fs.lookup(bathroom_dir.ino, b"stall_3").unwrap();
    // A toilet and 250 piles.
    assert_eq!(fs.readdir(stall3.ino, 0).unwrap().len(), 251);
    let stall1 = fs.lookup(bathroom_dir.ino, b"stall_1").unwrap();
    assert!(fs.lookup(stall1.ino, b"Toilet").is_ok());
}

#[test]
fn classroom_hides_sally_until_she_is_read() {
    let mut fs = MainFs::new(0, 0);
    classroom::start(&mut fs);
    let class = fs.lookup(1, b"Classroom").unwrap();
    assert!(fs.lookup(class.ino, b"Teacher").is_ok());
    assert_eq!(fs.lookup(class.ino, b"Victory"), Err(FsError::NotFound));
    let sally = fs.lookup(class.ino, b"Sally").unwrap();
    let (_, cmds) = fs.read(sally.ino, 0, 1).unwrap();
    assert_eq!(cmds.len(), 1);
    for cmd in cmds {
        synthfs::background_tasks::run_command(&mut fs, cmd).unwrap();
    }
    assert!(fs.lookup(class.ino, b"Victory").is_ok());
}

#[test]
fn the_door_opens_onto_victory() {
    let mut fs = MainFs::new(0, 0);
    many_open::start(&mut fs);
    let room = fs.lookup(1, b"The_Door").unwrap();
    let door = fs.lookup(room.ino, b"Heavy_Door").unwrap();
    let (_, cmds) = fs.read(door.ino, 0, 1).unwrap();
    for cmd in cmds {
        synthfs::background_tasks::run_command(&mut fs, cmd).unwrap();
    }
    assert!(fs.lookup(room.ino, b"Victory").is_ok());
}

#[test]
fn many_open_victory_inserts_the_reward() {
    let mut fs = MainFs::new(0, 0);
    many_open::victory(&mut fs);
    let room = fs.lookup(1, b"The_Door").unwrap();
    assert!(fs.lookup(room.ino, b"Victory").is_ok());
}

#[test]
fn welcome_chain_replaces_itself_and_wakes_the_modules() {
    let mut fs = MainFs::new(0, 0);
    start_mod::start(&mut fs);
    let welcome = fs.lookup(1, b"Welcome").unwrap();
    // First read reveals the second welcome file.
    let (_, cmds) = fs.read(welcome.ino, 0, 1).unwrap();
    for cmd in cmds {
        synthfs::background_tasks::run_command(&mut fs, cmd).unwrap();
    }
    let welcome2 = fs.lookup(1, b"Welcome?").unwrap();
    // Its first read removes the original greeting and wakes the modules.
    let (_, cmds) = fs.read(welcome2.ino, 0, 1).unwrap();
    for cmd in cmds {
        let _ = synthfs::background_tasks::run_command(&mut fs, cmd);
    }
    assert_eq!(fs.lookup(1, b"Welcome"), Err(FsError::NotFound));
    assert!(fs.lookup(1, b"The_Door").is_ok());
    assert!(fs.lookup(1, b"Classroom").is_ok());
}

#[test]
fn start_mods_runs_the_startup_batch_directly() {
    let mut fs = MainFs::new(0, 0);
    start_mod::start_mods(&mut fs);
    assert!(fs.lookup(1, b"The_Door").is_ok());
    assert!(fs.lookup(1, b"Classroom").is_ok());
}
