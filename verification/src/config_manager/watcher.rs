//! Which file system events call for a reload of the configuration.

use vstd::prelude::*;

verus! {

/// What happened to the files that an event is about.
#[derive(Debug, Clone, Copy, PartialEq, Eq, Structural)]
pub enum ChangeKind {
    Access,
    Create,
    Modify,
    Remove,
    Other,
}

/// How a path in an event relates to the configuration file.
#[derive(Debug, Clone, Copy, PartialEq, Eq, Structural)]
pub struct PathMatch {
    /// It is the path of the configuration file.
    pub same_path: bool,
    /// It ends with the name of the configuration file.
    pub same_name: bool,
}

/// Whether an event may have changed the configuration.
///
/// Atomic renames show up as Create events for the new path, and some systems
/// report just the file name.
pub open spec fn relevant(kind: ChangeKind, paths: Seq<PathMatch>) -> bool {
    &&& kind is Modify || kind is Create || kind is Remove
    &&& exists|i: int|
        0 <= i < paths.len() && ((#[trigger] paths[i]).same_path || paths[i].same_name)
}

/// Whether an event calls for a reload.
pub fn is_relevant_event(kind: ChangeKind, paths: &[PathMatch]) -> (b: bool)
    ensures
        b == relevant(kind, paths@),
{
    match kind {
        ChangeKind::Modify | ChangeKind::Create | ChangeKind::Remove => {},
        ChangeKind::Access | ChangeKind::Other => {
            return false;
        },
    }
    let mut i: usize = 0;
    while i < paths.len()
        invariant
            i <= paths@.len(),
            kind is Modify || kind is Create || kind is Remove,
            forall|j: int|
                0 <= j < i ==> !(#[trigger] paths@[j]).same_path && !paths@[j].same_name,
        decreases paths@.len() - i,
    {
        if paths[i].same_path || paths[i].same_name {
            assert(paths@[i as int].same_path || paths@[i as int].same_name);
            return true;
        }
        i = i + 1;
    }
    false
}

} // verus!
