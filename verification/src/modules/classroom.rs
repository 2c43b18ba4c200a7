//! A classroom whose hidden pupil rewards the reader who finds her.

use vstd::prelude::*;
use crate::background_tasks::run_commands;
use crate::file_helpers::{str_to_vec, text_file, victory_file};
use crate::files::FileNode;
use crate::main_fs::{MainFs, sandbox_preserved};
use crate::trigger_file::{Command, TriggerFile};

verus! {

/// Populates the classroom: the hidden pupil whose first read hands out the
/// victory file, the teacher, and three other kids.
pub fn start(fs: &mut MainFs)
    requires
        old(fs).wf(),
    ensures
        final(fs).wf(),
        sandbox_preserved(old(fs).table(), final(fs).table()),
        final(fs).next_ino >= old(fs).next_ino,
        final(fs).uid == old(fs).uid,
        final(fs).gid == old(fs).gid,
{
    let cmds = commands(fs.uid, fs.gid);
    run_commands(fs, cmds);
}

/// The insertions the classroom module schedules: the hidden pupil, the
/// teacher and three kids.
pub fn commands(uid: u32, gid: u32) -> (r: Vec<Command>)
    ensures
        r@.len() == 5,
{
    let teacher_message = "I have been looking for Sally for the last 10 minutes but I can't find her.\nShe was here earlier, but once I said we were studying math instead of reading and writing she started hiding.\nI guess she really likes reading and writing.\n";
    let sally_message = "Oh we are going back to reading and writing!\nYEAYYY!\nIll come back to class.\n";
    let kid_1 = "Ok boomer!\n";
    let kid_2 = "I love Skibidi Toilet!\n";
    let kid_3 = "STOP HITTING ME BILLY!\n";
    let mut on_victory: Vec<Command> = Vec::new();
    on_victory.push(Command::Insert {
        path: str_to_vec("Classroom"),
        node: victory_file(uid, gid),
    });
    let sally = FileNode::Trigger(
        TriggerFile::new(
            on_victory,
            str_to_vec("Sally"),
            str_to_vec(sally_message),
            crate::background_tasks::DEFAULT_MODE,
            uid,
            gid,
            0,
        ),
    );
    let mut cmds: Vec<Command> = Vec::new();
    cmds.push(Command::Insert { path: str_to_vec("Classroom"), node: sally });
    cmds.push(Command::Insert {
        path: str_to_vec("Classroom"),
        node: text_file("Teacher", teacher_message, uid, gid),
    });
    cmds.push(Command::Insert {
        path: str_to_vec("Classroom"),
        node: text_file("Billy", kid_1, uid, gid),
    });
    cmds.push(Command::Insert {
        path: str_to_vec("Classroom"),
        node: text_file("Timmy", kid_2, uid, gid),
    });
    cmds.push(Command::Insert {
        path: str_to_vec("Classroom"),
        node: text_file("John", kid_3, uid, gid),
    });
    cmds
}

} // verus!
