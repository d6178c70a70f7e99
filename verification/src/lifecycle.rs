//! The interaction lifecycle of a single note.
//!
//! The presentation layer keeps one phase per visible note and asks this
//! module what each input does to it. The answer also names the commit the
//! presentation layer owes the store at that moment: a released drag
//! commits the snapped position at once, and a finished edit commits text
//! and color. Dragging and editing exclude each other: each is entered
//! from the resting phase only, so input while editing can never start a
//! drag.

use vstd::prelude::*;

verus! {

/// Where a note stands between interactions.
#[derive(Clone, Copy, Debug, PartialEq, Eq, Structural)]
pub enum NotePhase {
    /// At rest; the stored fields are current.
    Idle,
    /// Following the pointer; the position on screen runs ahead of the
    /// store.
    Dragging,
    /// Open for text and color changes; those fields run ahead of the
    /// store.
    Editing,
}

/// What the user did to the note.
#[derive(Clone, Copy, Debug, PartialEq, Eq, Structural)]
pub enum NoteInput {
    DragStart,
    DragRelease,
    DoubleActivate,
    EditDone,
}

/// What the presentation layer must commit to the store on a transition.
#[derive(Clone, Copy, Debug, PartialEq, Eq, Structural)]
pub enum NoteEffect {
    /// Nothing is owed.
    NoCommit,
    /// Snap the note's position to the grid and commit it.
    CommitPosition,
    /// Commit the note's text and fill color.
    CommitTextColor,
}

/// The next phase and the owed commit, for each phase and input. Input
/// that has no meaning in the current phase changes nothing.
pub open spec fn spec_note_step(p: NotePhase, i: NoteInput) -> (NotePhase, NoteEffect) {
    match (p, i) {
        (NotePhase::Idle, NoteInput::DragStart) => (NotePhase::Dragging, NoteEffect::NoCommit),
        (NotePhase::Dragging, NoteInput::DragRelease) => (
            NotePhase::Idle,
            NoteEffect::CommitPosition,
        ),
        (NotePhase::Idle, NoteInput::DoubleActivate) => (
            NotePhase::Editing,
            NoteEffect::NoCommit,
        ),
        (NotePhase::Editing, NoteInput::EditDone) => (
            NotePhase::Idle,
            NoteEffect::CommitTextColor,
        ),
        _ => (p, NoteEffect::NoCommit),
    }
}

/// Drive one note one step.
pub fn note_step(p: NotePhase, i: NoteInput) -> (r: (NotePhase, NoteEffect))
    ensures
        r == spec_note_step(p, i),
{
    match (p, i) {
        (NotePhase::Idle, NoteInput::DragStart) => (NotePhase::Dragging, NoteEffect::NoCommit),
        (NotePhase::Dragging, NoteInput::DragRelease) => (
            NotePhase::Idle,
            NoteEffect::CommitPosition,
        ),
        (NotePhase::Idle, NoteInput::DoubleActivate) => (
            NotePhase::Editing,
            NoteEffect::NoCommit,
        ),
        (NotePhase::Editing, NoteInput::EditDone) => (
            NotePhase::Idle,
            NoteEffect::CommitTextColor,
        ),
        (_, _) => (p, NoteEffect::NoCommit),
    }
}

/// Dragging and editing are mutually exclusive: each is entered from the
/// resting phase alone, so no input received while a note is being edited
/// can start a drag, and none received while it is dragged can open an
/// edit.
pub proof fn lemma_drag_edit_exclusive(p: NotePhase, i: NoteInput)
    ensures
        spec_note_step(p, i).0 == NotePhase::Dragging ==> p == NotePhase::Dragging || p
            == NotePhase::Idle,
        spec_note_step(p, i).0 == NotePhase::Editing ==> p == NotePhase::Editing || p
            == NotePhase::Idle,
        p == NotePhase::Editing ==> spec_note_step(p, i).0 != NotePhase::Dragging,
        p == NotePhase::Dragging ==> spec_note_step(p, i).0 != NotePhase::Editing,
{
}

/// A commit is owed only on the two transitions back to rest: releasing a
/// drag commits the position, finishing an edit commits text and color.
pub proof fn lemma_commit_points(p: NotePhase, i: NoteInput)
    ensures
        spec_note_step(p, i).1 == NoteEffect::CommitPosition <==> p == NotePhase::Dragging && i
            == NoteInput::DragRelease,
        spec_note_step(p, i).1 == NoteEffect::CommitTextColor <==> p == NotePhase::Editing && i
            == NoteInput::EditDone,
        spec_note_step(p, i).1 != NoteEffect::NoCommit ==> spec_note_step(p, i).0
            == NotePhase::Idle,
{
}

} // verus!
