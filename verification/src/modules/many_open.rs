//! A heavy door that eventually opens onto the victory file.

use vstd::prelude::*;
use crate::background_tasks::{add_file, run_commands, DEFAULT_MODE};
use crate::file_helpers::{str_to_vec, victory_file};
use crate::files::FileNode;
use crate::main_fs::{MainFs, sandbox_preserved};
use crate::trigger_file::{Command, TriggerFile};

verus! {

/// Populates the door room: the heavy door itself, whose first read hands
/// out the victory insertion.
pub fn start(fs: &mut MainFs)
    requires
        old(fs).wf(),
    ensures
        final(fs).wf(),
        sandbox_preserved(old(fs).table(), final(fs).table()),
        final(fs).next_ino >= old(fs).next_ino,
        final(fs).uid == old(fs).uid,
        final(fs).gid == old(fs).gid,
{
    let cmds = commands(fs.uid, fs.gid);
    run_commands(fs, cmds);
}

/// The door room's insertions: the heavy door alone.
pub fn commands(uid: u32, gid: u32) -> (r: Vec<Command>)
    ensures
        r@.len() == 1,
{
    let message = "You think you can get past me that easy.\nYou would need 10 men to try and open me to even have a chance.\n";
    let mut on_open: Vec<Command> = Vec::new();
    on_open.push(Command::Insert {
        path: str_to_vec("The_Door"),
        node: victory_file(uid, gid),
    });
    let door = FileNode::Trigger(
        TriggerFile::new(
            on_open,
            str_to_vec("Heavy_Door"),
            str_to_vec(message),
            DEFAULT_MODE,
            uid,
            gid,
            0,
        ),
    );
    let mut cmds: Vec<Command> = Vec::new();
    cmds.push(Command::Insert { path: str_to_vec("The_Door"), node: door });
    cmds
}

/// Hands out the module's reward.
pub fn victory(fs: &mut MainFs)
    requires
        old(fs).wf(),
    ensures
        final(fs).wf(),
        sandbox_preserved(old(fs).table(), final(fs).table()),
        final(fs).next_ino >= old(fs).next_ino,
        final(fs).uid == old(fs).uid,
        final(fs).gid == old(fs).gid,
{
    let reward = victory_file(fs.uid, fs.gid);
    let _ = add_file(fs, "The_Door".as_bytes(), reward);
}

} // verus!
