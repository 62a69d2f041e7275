//! The UI modes that decide how input is interpreted.
use vstd::prelude::*;
use crate::entry::EntryIdentifier;

verus! {

/// Exactly one mode is active at a time. `MoveEntry(dragged, target)` previews
/// `dragged` relocated next to `target` until the move is committed.
#[derive(Clone, Copy, Debug, PartialEq, Eq, Hash, Structural)]
pub enum UIMode {
    Normal,
    ContextMenu,
    Help,
    MoveEntry(EntryIdentifier, EntryIdentifier),
}

} // verus!
