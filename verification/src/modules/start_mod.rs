//! The welcome sequence: reading the greeting file reveals a second one,
//! and reading that one removes the first and wakes the other modules.

use vstd::prelude::*;
use crate::background_tasks::{run_commands, DEFAULT_MODE};
use crate::file_helpers::str_to_vec;
use crate::files::FileNode;
use crate::main_fs::{MainFs, sandbox_preserved};
use crate::modules::{classroom, many_open};
use crate::trigger_file::{Command, TriggerFile};

verus! {

/// Places the first welcome file at the root.  Its first read schedules the
/// second welcome file; that one's first read removes the original greeting
/// and schedules the other modules' insertions.
pub fn start(fs: &mut MainFs)
    requires
        old(fs).wf(),
    ensures
        final(fs).wf(),
        sandbox_preserved(old(fs).table(), final(fs).table()),
        final(fs).next_ino >= old(fs).next_ino,
        final(fs).uid == old(fs).uid,
        final(fs).gid == old(fs).gid,
{
    let welcome_message = "Hello and welcome to the linux challenge.\nYou may be wondering where the challenge is.\nWell you are actually just blind so check again.\n";
    let mut on_read: Vec<Command> = Vec::new();
    on_read.push(Command::Insert { path: str_to_vec(""), node: spawn_welcome_2(fs.uid, fs.gid) });
    let welcome = FileNode::Trigger(
        TriggerFile::new(
            on_read,
            str_to_vec("Welcome"),
            str_to_vec(welcome_message),
            DEFAULT_MODE,
            fs.uid,
            fs.gid,
            0,
        ),
    );
    let mut cmds: Vec<Command> = Vec::new();
    cmds.push(Command::Insert { path: str_to_vec(""), node: welcome });
    run_commands(fs, cmds);
}

/// Builds the second welcome file: its first read schedules the main module
/// startup.
pub fn spawn_welcome_2(uid: u32, gid: u32) -> FileNode {
    let welcome_message_2 = "Huh that was weird.\nYou should probably get your eyes checked.\nAnyways welcome to the challenge.\nThis is your main hub directory.\nYou can navagate using standard linux commands.\nEach directory is a different challenge and is contained in that directory.\nYou are free to do them in any order.\nYou may have to code a custom program (in Rust if you want) to complete some challenges.\nRemember that you may have to think outside the box to solve the challenge.\nThings are not always as they seem.\n\nIf you want to make your own files, you can make any file with a name that starts with an _ to avoid conflicts.\nAdditionally, any directory that starts with an _ will allow you to make any files you want inside of it.\nYou can use this to make areas to use tools like GCC or cargo.\n";
    FileNode::Trigger(
        TriggerFile::new(
            start_commands(uid, gid),
            str_to_vec("Welcome?"),
            str_to_vec(welcome_message_2),
            DEFAULT_MODE,
            uid,
            gid,
            0,
        ),
    )
}

/// What the second welcome file schedules: removing the first greeting and
/// populating the modules.
pub fn start_commands(uid: u32, gid: u32) -> (r: Vec<Command>)
    ensures
        r@.len() == 7,
{
    let mut cmds: Vec<Command> = Vec::new();
    cmds.push(Command::Remove { path: str_to_vec("Welcome") });
    let mut door = many_open::commands(uid, gid);
    cmds.append(&mut door);
    let mut class = classroom::commands(uid, gid);
    cmds.append(&mut class);
    cmds
}

/// Runs the main module startup directly: removes the greeting and
/// populates the modules in one batch.
pub fn start_mods(fs: &mut MainFs)
    requires
        old(fs).wf(),
    ensures
        final(fs).wf(),
        sandbox_preserved(old(fs).table(), final(fs).table()),
        final(fs).next_ino >= old(fs).next_ino,
        final(fs).uid == old(fs).uid,
        final(fs).gid == old(fs).gid,
{
    let cmds = start_commands(fs.uid, fs.gid);
    run_commands(fs, cmds);
}

} // verus!
