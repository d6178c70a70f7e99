use plop::{note_step, NoteEffect, NoteInput, NotePhase};

#[test]
fn drag_cycle_commits_position_once() {
    let (p, e) = note_step(NotePhase::Idle, NoteInput::DragStart);
    assert_eq!(p, NotePhase::Dragging);
    assert_eq!(e, NoteEffect::NoCommit);
    let (p, e) = note_step(p, NoteInput::DragRelease);
    assert_eq!(p, NotePhase::Idle);
    assert_eq!(e, NoteEffect::CommitPosition);
}

#[test]
fn edit_cycle_commits_text_and_color() {
    let (p, e) = note_step(NotePhase::Idle, NoteInput::DoubleActivate);
    assert_eq!(p, NotePhase::Editing);
    assert_eq!(e, NoteEffect::NoCommit);
    let (p, e) = note_step(p, NoteInput::EditDone);
    assert_eq!(p, NotePhase::Idle);
    assert_eq!(e, NoteEffect::CommitTextColor);
}

#[test]
fn dragging_cannot_start_while_editing() {
    let (p, e) = note_step(NotePhase::Editing, NoteInput::DragStart);
    assert_eq!(p, NotePhase::Editing);
    assert_eq!(e, NoteEffect::NoCommit);
    let (p, e) = note_step(NotePhase::Dragging, NoteInput::DoubleActivate);
    assert_eq!(p, NotePhase::Dragging);
    assert_eq!(e, NoteEffect::NoCommit);
}

#[test]
fn meaningless_inputs_change_nothing() {
    for &p in &[NotePhase::Idle, NotePhase::Dragging, NotePhase::Editing] {
        for &i in &[
            NoteInput::DragStart,
            NoteInput::DragRelease,
            NoteInput::DoubleActivate,
            NoteInput::EditDone,
        ] {
            let (next, effect) = note_step(p, i);
            if effect == NoteEffect::NoCommit && next == p {
                continue;
            }
            // every change of phase or owed commit is one of the four
            // legal transitions
            assert!(
                (p == NotePhase::Idle && i == NoteInput::DragStart)
                    || (p == NotePhase::Dragging && i == NoteInput::DragRelease)
                    || (p == NotePhase::Idle && i == NoteInput::DoubleActivate)
                    || (p == NotePhase::Editing && i == NoteInput::EditDone)
            );
        }
    }
}
