//! The decisions of a file-system walk: what happens to each entry it meets.
//! Symbolic links are never followed: neither scanned nor entered.
use std::path::Path;
use vstd::prelude::*;
use crate::cli::{should_skip_directory, skips_directory};

verus! {

/// What an entry is, as its own metadata says (a symbolic link is reported
/// as a link, not as what it points to).
#[derive(Clone, Copy, Debug, PartialEq, Eq, Structural)]
pub enum EntryKind {
    Symlink,
    File,
    Directory,
    Other,
}

/// What the walk does with an entry.
#[derive(Clone, Copy, Debug, PartialEq, Eq, Structural)]
pub enum WalkStep {
    /// Leave it alone.
    Ignore,
    /// Read the file and scan its contents.
    Scan,
    /// List the directory and walk each of its entries.
    Enter,
}

/// The step for an entry of kind `kind`: links and special files are left
/// alone, files are scanned, directories entered; a directory below the
/// starting point whose name is one of the skipped names is left alone.
pub open spec fn step_for(kind: EntryKind, is_root: bool, name_skipped: bool) -> WalkStep {
    match kind {
        EntryKind::Symlink | EntryKind::Other => WalkStep::Ignore,
        EntryKind::File => WalkStep::Scan,
        EntryKind::Directory => if !is_root && name_skipped {
            WalkStep::Ignore
        } else {
            WalkStep::Enter
        },
    }
}

/// The step for an entry of kind `kind`, where `is_root` tells whether it is
/// the path the walk started from and `name_skipped` whether its name is one
/// of the skipped directory names.
pub fn walk_step(kind: EntryKind, is_root: bool, name_skipped: bool) -> (step: WalkStep)
    ensures
        step == step_for(kind, is_root, name_skipped),
        kind is Symlink ==> step is Ignore,
{
    match kind {
        EntryKind::Symlink => WalkStep::Ignore,
        EntryKind::Other => WalkStep::Ignore,
        EntryKind::File => WalkStep::Scan,
        EntryKind::Directory => {
            if !is_root && name_skipped {
                WalkStep::Ignore
            } else {
                WalkStep::Enter
            }
        },
    }
}

/// The step for the entry at `path`; its name is looked at only for a
/// directory below the starting point.
pub fn entry_step(kind: EntryKind, is_root: bool, path: &Path) -> (step: WalkStep)
    ensures
        step == step_for(kind, is_root, skips_directory(path)),
{
    let name_skipped = if kind == EntryKind::Directory && !is_root {
        should_skip_directory(path)
    } else {
        false
    };
    walk_step(kind, is_root, name_skipped)
}

/// A symbolic link is never followed, whatever its name and wherever it is;
/// only files are scanned and only directories entered.
pub proof fn law_links_are_not_followed(kind: EntryKind, is_root: bool, name_skipped: bool)
    ensures
        kind is Symlink ==> step_for(kind, is_root, name_skipped) is Ignore,
        step_for(kind, is_root, name_skipped) is Scan <==> kind is File,
        step_for(kind, is_root, name_skipped) is Enter ==> kind is Directory,
{
}

/// The starting point is always entered when it is a directory, even when
/// its name is one of the skipped names.
pub proof fn law_start_directory_is_entered(name_skipped: bool)
    ensures
        step_for(EntryKind::Directory, true, name_skipped) is Enter,
{
}

} // verus!
