//! The durable application snapshot: notes, the board that holds them, and
//! the root store with its note-identifier counter.
//!
//! The store is the single source of truth. The presentation layer keeps
//! transient per-note copies for interactive editing and commits them back
//! here through the `commit_*` operations; identifiers come only from the
//! store's counter, which is monotone and never reset.

use crate::geom::{snap_axis, snap_in_range, snap_to_grid, Recti, Vec2i, COORD_SCALE};
use vstd::prelude::*;

verus! {

/// A fill or background color: four 8-bit channels.
#[derive(Clone, Copy, Debug, PartialEq, Eq, Structural)]
pub struct Rgba {
    pub r: u8,
    pub g: u8,
    pub b: u8,
    pub a: u8,
}

/// The light blue used as a fresh board's background.
pub open spec fn spec_light_blue() -> Rgba {
    Rgba { r: 173, g: 216, b: 230, a: 255 }
}

/// The yellow given to a newly placed note.
pub open spec fn spec_yellow() -> Rgba {
    Rgba { r: 255, g: 255, b: 0, a: 255 }
}

/// The light blue used as a fresh board's background.
pub fn light_blue() -> (c: Rgba)
    ensures
        c == spec_light_blue(),
{
    Rgba { r: 173, g: 216, b: 230, a: 255 }
}

/// The yellow given to a newly placed note.
pub fn yellow() -> (c: Rgba)
    ensures
        c == spec_yellow(),
{
    Rgba { r: 255, g: 255, b: 0, a: 255 }
}

/// A single note card.
#[derive(Clone, Debug, PartialEq, Eq)]
pub struct NoteData {
    /// Identifier, unique within the board; assigned by the store's counter.
    pub id: u64,
    /// User-editable text content.
    pub text: String,
    /// Top-left corner on the canvas, in sub-units.
    pub pos: Vec2i,
    /// Width and height, in sub-units.
    pub size: Vec2i,
    /// Fill color.
    pub color: Rgba,
}

/// Mathematical value of a [`NoteData`].
#[verifier::ext_equal]
pub struct NoteV {
    pub id: u64,
    pub text: Seq<char>,
    pub pos: Vec2i,
    pub size: Vec2i,
    pub color: Rgba,
}

impl View for NoteData {
    type V = NoteV;

    open spec fn view(&self) -> NoteV {
        NoteV {
            id: self.id,
            text: self.text@,
            pos: self.pos,
            size: self.size,
            color: self.color,
        }
    }
}

/// A named canvas holding notes in insertion order, plus the persisted
/// viewport rectangle.
#[derive(Clone, Debug, PartialEq, Eq)]
pub struct Board {
    pub id: u64,
    pub name: String,
    pub background: Rgba,
    pub notes: Vec<NoteData>,
    pub scene_rect: Recti,
}

/// Mathematical value of a [`Board`].
#[verifier::ext_equal]
pub struct BoardV {
    pub id: u64,
    pub name: Seq<char>,
    pub background: Rgba,
    pub notes: Seq<NoteV>,
    pub scene_rect: Recti,
}

impl View for Board {
    type V = BoardV;

    open spec fn view(&self) -> BoardV {
        BoardV {
            id: self.id,
            name: self.name@,
            background: self.background,
            notes: self.notes@.map_values(|n: NoteData| n@),
            scene_rect: self.scene_rect,
        }
    }
}

/// The root persisted snapshot: one board and the note-identifier counter.
#[derive(Clone, Debug, PartialEq, Eq)]
pub struct AppState {
    pub board: Board,
    pub next_note_id: u64,
}

/// Mathematical value of an [`AppState`].
#[verifier::ext_equal]
pub struct StateV {
    pub board: BoardV,
    pub next_note_id: u64,
}

impl View for AppState {
    type V = StateV;

    open spec fn view(&self) -> StateV {
        StateV { board: self.board@, next_note_id: self.next_note_id }
    }
}

/// The store a fresh run starts from: one empty board named "Board" with a
/// light-blue background, a zero viewport, and counters at one.
pub open spec fn spec_default_state() -> StateV {
    StateV {
        board: BoardV {
            id: 1u64,
            name: "Board"@,
            background: spec_light_blue(),
            notes: Seq::empty(),
            scene_rect: Recti {
                min: Vec2i { x: 0, y: 0 },
                size: Vec2i { x: 0, y: 0 },
            },
        },
        next_note_id: 1u64,
    }
}

impl Default for AppState {
    /// Construct the default store of [`spec_default_state`].
    fn default() -> (s: AppState)
        ensures
            s@ == spec_default_state(),
    {
        let s = AppState {
            board: Board {
                id: 1,
                name: "Board".to_owned(),
                background: light_blue(),
                notes: Vec::new(),
                scene_rect: Recti {
                    min: Vec2i { x: 0, y: 0 },
                    size: Vec2i { x: 0, y: 0 },
                },
            },
            next_note_id: 1,
        };
        proof {
            assert(s@.board.notes =~= Seq::<NoteV>::empty());
            assert(s@ =~= spec_default_state());
        }
        s
    }
}

/// One step of the identifier allocator: the counter advances by one and
/// nothing else changes.
pub open spec fn alloc_step(s: StateV) -> StateV
    recommends
        s.next_note_id < u64::MAX,
{
    StateV { next_note_id: (s.next_note_id + 1) as u64, ..s }
}

/// The store after `n` allocator steps.
pub open spec fn state_after_allocs(s: StateV, n: nat) -> StateV
    decreases n,
{
    if n == 0 {
        s
    } else {
        alloc_step(state_after_allocs(s, (n - 1) as nat))
    }
}

/// The identifier handed out by the `k + 1`-th allocation, counting from a
/// store whose counter reads `s.next_note_id`.
pub open spec fn alloc_id(s: StateV, k: nat) -> int {
    state_after_allocs(s, k).next_note_id as int
}

/// Identifier monotonicity: starting from any store, `n` allocations leave
/// the board untouched and the counter at its initial value plus `n`, and
/// the identifiers handed out strictly increase.
pub proof fn lemma_note_id_allocation(s: StateV, n: nat)
    requires
        s.next_note_id + n <= u64::MAX,
    ensures
        state_after_allocs(s, n).board == s.board,
        state_after_allocs(s, n).next_note_id == s.next_note_id + n,
        forall|i: nat, j: nat| i < j < n ==> alloc_id(s, i) < alloc_id(s, j),
{
    lemma_state_after_allocs(s, n);
    assert forall|i: nat, j: nat| i < j < n implies alloc_id(s, i) < alloc_id(s, j) by {
        lemma_state_after_allocs(s, i);
        lemma_state_after_allocs(s, j);
    }
}

proof fn lemma_state_after_allocs(s: StateV, n: nat)
    requires
        s.next_note_id + n <= u64::MAX,
    ensures
        state_after_allocs(s, n).next_note_id == s.next_note_id + n,
        state_after_allocs(s, n).board == s.board,
    decreases n,
{
    if n > 0 {
        lemma_state_after_allocs(s, (n - 1) as nat);
    }
}

/// Index of the first note with identifier `id`, or `-1` if there is none.
pub open spec fn note_index(notes: Seq<NoteV>, id: u64) -> int
    decreases notes.len(),
{
    if notes.len() == 0 {
        -1
    } else if notes[0].id == id {
        0
    } else {
        let r = note_index(notes.drop_first(), id);
        if r < 0 {
            -1
        } else {
            r + 1
        }
    }
}

/// `note_index` points at the first note carrying `id`, and is negative
/// exactly when no note carries it.
pub proof fn lemma_note_index(notes: Seq<NoteV>, id: u64)
    ensures
        note_index(notes, id) >= 0 <==> exists|k: int|
            0 <= k < notes.len() && notes[k].id == id,
        note_index(notes, id) >= 0 ==> {
            let idx = note_index(notes, id);
            &&& idx < notes.len()
            &&& notes[idx].id == id
            &&& forall|k: int| 0 <= k < idx ==> notes[k].id != id
        },
    decreases notes.len(),
{
    if notes.len() > 0 && notes[0].id != id {
        lemma_note_index(notes.drop_first(), id);
        let rest = notes.drop_first();
        let r = note_index(rest, id);
        if r >= 0 {
            assert(notes[r + 1] == rest[r]);
            assert(forall|k: int| 1 <= k < r + 1 ==> notes[k] == rest[k - 1]);
        } else {
            assert(forall|k: int| 1 <= k < notes.len() ==> notes[k] == rest[k - 1]);
        }
    }
}

/// Find the position of the first note with identifier `id`.
fn find_note(notes: &Vec<NoteData>, id: u64) -> (r: Option<usize>)
    ensures
        ({
            let idx = note_index(notes@.map_values(|n: NoteData| n@), id);
            match r {
                Some(i) => idx == i && i < notes@.len(),
                None => idx < 0,
            }
        }),
{
    let ghost gnotes = notes@.map_values(|n: NoteData| n@);
    proof {
        lemma_note_index(gnotes, id);
    }
    let n = notes.len();
    for i in 0..n
        invariant
            n == notes@.len(),
            gnotes == notes@.map_values(|n: NoteData| n@),
            forall|k: int| 0 <= k < i ==> gnotes[k].id != id,
            note_index(gnotes, id) >= 0 <==> exists|k: int|
                0 <= k < gnotes.len() && gnotes[k].id == id,
            note_index(gnotes, id) >= 0 ==> {
                let idx = note_index(gnotes, id);
                &&& idx < gnotes.len()
                &&& gnotes[idx].id == id
                &&& forall|k: int| 0 <= k < idx ==> gnotes[k].id != id
            },
    {
        if notes[i].id == id {
            proof {
                let idx = note_index(gnotes, id);
                assert(gnotes[i as int] == notes@[i as int]@);
                assert(gnotes[i as int].id == id);
                assert(idx >= 0);
                if idx < i as int {
                    assert(gnotes[idx].id != id);
                    assert(false);
                }
                if idx > i as int {
                    assert(gnotes[i as int].id != id);
                    assert(false);
                }
            }
            return Some(i);
        }
    }
    None
}

impl Board {
    /// Copy every field of `note` over the first stored note carrying the
    /// same identifier; a note the board does not hold is left uncommitted.
    pub fn commit_note(&mut self, note: &NoteData)
        ensures
            ({
                let idx = note_index(old(self)@.notes, note.id);
                &&& idx < 0 ==> final(self)@ == old(self)@
                &&& idx >= 0 ==> final(self)@ == (BoardV {
                    notes: old(self)@.notes.update(idx, note@),
                    ..old(self)@
                })
            }),
    {
        if let Some(i) = find_note(&self.notes, note.id) {
            self.notes[i] = NoteData {
                id: note.id,
                text: note.text.clone(),
                pos: note.pos,
                size: note.size,
                color: note.color,
            };
            proof {
                let idx = note_index(old(self)@.notes, note.id);
                assert(self@.notes =~= old(self)@.notes.update(idx, note@));
                assert(self@ =~= (BoardV { notes: old(self)@.notes.update(idx, note@), ..old(self)@ }));
            }
        } else {
            proof {
                assert(self@ =~= old(self)@);
            }
        }
    }

    /// Commit an edit of text and fill color to the first stored note
    /// carrying `id`, leaving its position and size as stored.
    pub fn commit_text_color(&mut self, id: u64, text: &str, color: Rgba)
        ensures
            ({
                let idx = note_index(old(self)@.notes, id);
                &&& idx < 0 ==> final(self)@ == old(self)@
                &&& idx >= 0 ==> final(self)@ == (BoardV {
                    notes: old(self)@.notes.update(
                        idx,
                        NoteV { text: text@, color, ..old(self)@.notes[idx] },
                    ),
                    ..old(self)@
                })
            }),
    {
        if let Some(i) = find_note(&self.notes, id) {
            let ghost idx = note_index(old(self)@.notes, id);
            let updated = NoteData {
                id: self.notes[i].id,
                text: text.to_owned(),
                pos: self.notes[i].pos,
                size: self.notes[i].size,
                color,
            };
            proof {
                assert(old(self)@.notes[idx] == self.notes@.map_values(|n: NoteData| n@)[idx]);
            }
            self.notes[i] = updated;
            proof {
                assert(self@.notes =~= old(self)@.notes.update(
                    idx,
                    NoteV { text: text@, color, ..old(self)@.notes[idx] },
                ));
                assert(self@ =~= (BoardV {
                    notes: old(self)@.notes.update(
                        idx,
                        NoteV { text: text@, color, ..old(self)@.notes[idx] },
                    ),
                    ..old(self)@
                }));
            }
        } else {
            proof {
                assert(self@ =~= old(self)@);
            }
        }
    }

    /// Commit a position to the first stored note carrying `id`.
    pub fn commit_position(&mut self, id: u64, pos: Vec2i)
        ensures
            ({
                let idx = note_index(old(self)@.notes, id);
                &&& idx < 0 ==> final(self)@ == old(self)@
                &&& idx >= 0 ==> final(self)@ == (BoardV {
                    notes: old(self)@.notes.update(
                        idx,
                        NoteV { pos, ..old(self)@.notes[idx] },
                    ),
                    ..old(self)@
                })
            }),
    {
        if let Some(i) = find_note(&self.notes, id) {
            let ghost idx = note_index(old(self)@.notes, id);
            let updated = NoteData {
                id: self.notes[i].id,
                text: self.notes[i].text.clone(),
                pos,
                size: self.notes[i].size,
                color: self.notes[i].color,
            };
            proof {
                assert(old(self)@.notes[idx] == self.notes@.map_values(|n: NoteData| n@)[idx]);
            }
            self.notes[i] = updated;
            proof {
                assert(self@.notes =~= old(self)@.notes.update(
                    idx,
                    NoteV { pos, ..old(self)@.notes[idx] },
                ));
                assert(self@ =~= (BoardV {
                    notes: old(self)@.notes.update(
                        idx,
                        NoteV { pos, ..old(self)@.notes[idx] },
                    ),
                    ..old(self)@
                }));
            }
        } else {
            proof {
                assert(self@ =~= old(self)@);
            }
        }
    }
}

/// The board after the viewport is re-centered on the note carrying `id`:
/// the viewport keeps its extent and moves so that its center lies on the
/// note's center. A missing note, a negative stored extent, or a center
/// that leaves the coordinate range leaves the board unchanged.
pub open spec fn focus_result(b: BoardV, id: u64) -> BoardV {
    let idx = note_index(b.notes, id);
    if idx < 0 {
        b
    } else {
        let n = b.notes[idx];
        if n.size.x >= 0 && n.size.y >= 0 && b.scene_rect.size.x >= 0 && b.scene_rect.size.y
            >= 0 {
            let cx = n.pos.x + n.size.x / 2;
            let cy = n.pos.y + n.size.y / 2;
            let nx = cx - b.scene_rect.size.x / 2;
            let ny = cy - b.scene_rect.size.y / 2;
            if i64::MIN <= cx <= i64::MAX && i64::MIN <= cy <= i64::MAX && i64::MIN <= nx
                <= i64::MAX && i64::MIN <= ny <= i64::MAX {
                BoardV {
                    scene_rect: Recti {
                        min: Vec2i { x: nx as i64, y: ny as i64 },
                        size: b.scene_rect.size,
                    },
                    ..b
                }
            } else {
                b
            }
        } else {
            b
        }
    }
}

impl Board {
    /// Re-center the viewport on the note carrying `id`, keeping the
    /// viewport's extent.
    pub fn focus_on_note(&mut self, id: u64)
        ensures
            final(self)@ == focus_result(old(self)@, id),
    {
        let idx = match find_note(&self.notes, id) {
            Some(i) => i,
            None => {
                proof {
                    assert(self@ =~= focus_result(old(self)@, id));
                }
                return ;
            },
        };
        let n_pos = self.notes[idx].pos;
        let n_size = self.notes[idx].size;
        proof {
            let gidx = note_index(old(self)@.notes, id);
            assert(old(self)@.notes[gidx] == self.notes@.map_values(|n: NoteData| n@)[gidx]);
        }
        if n_size.x < 0 || n_size.y < 0 || self.scene_rect.size.x < 0 || self.scene_rect.size.y
            < 0 {
            proof {
                assert(self@ =~= focus_result(old(self)@, id));
            }
            return ;
        }
        let hx: i64 = ((n_size.x as u64) / 2) as i64;
        let hy: i64 = ((n_size.y as u64) / 2) as i64;
        let hw: i64 = ((self.scene_rect.size.x as u64) / 2) as i64;
        let hh: i64 = ((self.scene_rect.size.y as u64) / 2) as i64;
        let cx = match n_pos.x.checked_add(hx) {
            Some(v) => v,
            None => {
                proof {
                    assert(self@ =~= focus_result(old(self)@, id));
                }
                return ;
            },
        };
        let cy = match n_pos.y.checked_add(hy) {
            Some(v) => v,
            None => {
                proof {
                    assert(self@ =~= focus_result(old(self)@, id));
                }
                return ;
            },
        };
        let nx = match cx.checked_sub(hw) {
            Some(v) => v,
            None => {
                proof {
                    assert(self@ =~= focus_result(old(self)@, id));
                }
                return ;
            },
        };
        let ny = match cy.checked_sub(hh) {
            Some(v) => v,
            None => {
                proof {
                    assert(self@ =~= focus_result(old(self)@, id));
                }
                return ;
            },
        };
        self.scene_rect = Recti { min: Vec2i { x: nx, y: ny }, size: self.scene_rect.size };
        proof {
            assert(self@ =~= focus_result(old(self)@, id));
        }
    }
}

/// Width of a newly placed note, in sub-units.
pub const NEW_NOTE_WIDTH: i64 = 120 * COORD_SCALE;

/// Height of a newly placed note, in sub-units.
pub const NEW_NOTE_HEIGHT: i64 = 80 * COORD_SCALE;

/// The note a placement action creates: the allocated identifier, the
/// snapped position, a default size and text, and the new-note yellow.
pub open spec fn new_note_at(id: u64, pos: Vec2i) -> NoteV {
    NoteV {
        id,
        text: "New note"@,
        pos,
        size: Vec2i { x: NEW_NOTE_WIDTH, y: NEW_NOTE_HEIGHT },
        color: spec_yellow(),
    }
}

impl AppState {
    /// Hand out the next note identifier and advance the counter.
    pub fn allocate_note_id(&mut self) -> (id: u64)
        requires
            old(self).next_note_id < u64::MAX,
        ensures
            id == old(self)@.next_note_id,
            final(self)@ == alloc_step(old(self)@),
    {
        let id = self.next_note_id;
        self.next_note_id = self.next_note_id + 1;
        id
    }

    /// Place a new note at `pos` snapped to the grid: allocate its
    /// identifier and append it to the board.
    pub fn create_note(&mut self, pos: Vec2i, grid: i64) -> (id: u64)
        requires
            old(self).next_note_id < u64::MAX,
            1 <= grid,
            snap_in_range(pos.x as int, grid as int),
            snap_in_range(pos.y as int, grid as int),
        ensures
            id == old(self)@.next_note_id,
            final(self)@.next_note_id == old(self)@.next_note_id + 1,
            final(self)@.board == (BoardV {
                notes: old(self)@.board.notes.push(
                    new_note_at(
                        id,
                        Vec2i {
                            x: snap_axis(pos.x as int, grid as int) as i64,
                            y: snap_axis(pos.y as int, grid as int) as i64,
                        },
                    ),
                ),
                ..old(self)@.board
            }),
    {
        let id = self.allocate_note_id();
        let snapped = snap_to_grid(pos, grid);
        let note = NoteData {
            id,
            text: "New note".to_owned(),
            pos: snapped,
            size: Vec2i { x: NEW_NOTE_WIDTH, y: NEW_NOTE_HEIGHT },
            color: yellow(),
        };
        self.board.notes.push(note);
        proof {
            assert(self@.board.notes =~= old(self)@.board.notes.push(
                new_note_at(id, snapped),
            ));
            assert(self@.board =~= (BoardV {
                notes: old(self)@.board.notes.push(new_note_at(id, snapped)),
                ..old(self)@.board
            }));
        }
        id
    }
}

} // verus!
