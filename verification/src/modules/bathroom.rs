//! A bathroom full of text files, one stall of them heavily over-populated.

use vstd::prelude::*;
use crate::background_tasks::run_commands;
use crate::file_helpers::{str_to_vec, text_file};
use crate::main_fs::{MainFs, sandbox_preserved};
use crate::trigger_file::Command;

verus! {

/// Populates the bathroom: a plumber, four stalls with a toilet each, and a
/// large pile of mess in the third stall.
pub fn start(fs: &mut MainFs)
    requires
        old(fs).wf(),
    ensures
        final(fs).wf(),
        sandbox_preserved(old(fs).table(), final(fs).table()),
        final(fs).next_ino >= old(fs).next_ino,
        final(fs).uid == old(fs).uid,
        final(fs).gid == old(fs).gid,
{
    let cmds = commands(fs.uid, fs.gid);
    run_commands(fs, cmds);
}

/// The insertions the bathroom module schedules: five fixtures and two
/// hundred and fifty piles.
pub fn commands(uid: u32, gid: u32) -> (r: Vec<Command>)
    ensures
        r@.len() == 255,
{
    let plummer_message = "I have been trying to unclog this toilet for so long.\nIts basically impossible.\n";
    let poop_message = "$#@%!\n";
    let toilet_message = "It's a toilet.\nWOW!\n";
    let mut cmds: Vec<Command> = Vec::new();
    cmds.push(Command::Insert {
        path: str_to_vec("Bathroom"),
        node: text_file("Plummer", plummer_message, uid, gid),
    });
    cmds.push(Command::Insert {
        path: str_to_vec("Bathroom/stall_1"),
        node: text_file("Toilet", toilet_message, uid, gid),
    });
    cmds.push(Command::Insert {
        path: str_to_vec("Bathroom/stall_2"),
        node: text_file("Toilet", toilet_message, uid, gid),
    });
    cmds.push(Command::Insert {
        path: str_to_vec("Bathroom/stall_3"),
        node: text_file("Toilet", toilet_message, uid, gid),
    });
    cmds.push(Command::Insert {
        path: str_to_vec("Bathroom/stall_4"),
        node: text_file("Toilet", toilet_message, uid, gid),
    });
    let mut i: usize = 0;
    while i < 250
        invariant
            cmds@.len() == 5 + i,
            i <= 250,
        decreases 250 - i,
    {
        cmds.push(Command::Insert {
            path: str_to_vec("Bathroom/stall_3"),
            node: text_file("SHIT", poop_message, uid, gid),
        });
        i += 1;
    }
    cmds
}

} // verus!
