use plop::store::{light_blue, yellow};
use plop::{snap_to_grid, AppState, Board, NoteData, Recti, Rgba, Vec2i};

fn coord(v: f32) -> i64 {
    (v * 1000.0).round() as i64
}

fn white() -> Rgba {
    Rgba { r: 255, g: 255, b: 255, a: 255 }
}

fn black() -> Rgba {
    Rgba { r: 0, g: 0, b: 0, a: 255 }
}

fn zero_rect() -> Recti {
    Recti { min: Vec2i { x: 0, y: 0 }, size: Vec2i { x: 0, y: 0 } }
}

#[test]
fn snap_to_grid_rounds_position() {
    let pos = Vec2i { x: coord(27.0), y: coord(73.0) };
    let snapped = snap_to_grid(pos, coord(50.0));
    assert_eq!(snapped, Vec2i { x: coord(50.0), y: coord(50.0) });
}

#[test]
fn snap_rounds_half_away_from_zero_and_down_below_half() {
    let snapped = snap_to_grid(Vec2i { x: coord(24.9), y: 0 }, coord(50.0));
    assert_eq!(snapped, Vec2i { x: 0, y: 0 });
    let snapped = snap_to_grid(Vec2i { x: coord(25.0), y: coord(-25.0) }, coord(50.0));
    assert_eq!(snapped, Vec2i { x: coord(50.0), y: coord(-50.0) });
    let snapped = snap_to_grid(Vec2i { x: coord(-24.9), y: coord(-74.9) }, coord(50.0));
    assert_eq!(snapped, Vec2i { x: 0, y: coord(-50.0) });
}

#[test]
fn snap_is_idempotent_on_samples() {
    for &x in &[0i64, 1, 24_900, 25_000, 27_000, -27_000, 123_456, -98_765] {
        for &g in &[1i64, 7, 50_000, 1_000] {
            let once = snap_to_grid(Vec2i { x, y: -x }, g);
            let twice = snap_to_grid(once, g);
            assert_eq!(once, twice);
        }
    }
}

#[test]
fn default_store_shape() {
    let s = AppState::default();
    assert_eq!(s.next_note_id, 1);
    assert_eq!(s.board.id, 1);
    assert_eq!(s.board.name, "Board");
    assert_eq!(s.board.background, light_blue());
    assert!(s.board.notes.is_empty());
    assert_eq!(s.board.scene_rect, zero_rect());
}

#[test]
fn note_id_allocation_is_monotonic() {
    let mut s = AppState::default();
    let start = s.next_note_id;
    let mut ids = Vec::new();
    for _ in 0..5 {
        ids.push(s.allocate_note_id());
    }
    for k in 0..5u64 {
        assert_eq!(ids[k as usize], start + k);
    }
    for w in ids.windows(2) {
        assert!(w[0] < w[1]);
    }
    assert_eq!(s.next_note_id, start + 5);
    assert_eq!(s.board, AppState::default().board);
}

#[test]
fn create_note_snaps_and_allocates() {
    let mut s = AppState::default();
    let id = s.create_note(Vec2i { x: coord(27.0), y: coord(73.0) }, coord(50.0));
    assert_eq!(id, 1);
    assert_eq!(s.next_note_id, 2);
    assert_eq!(s.board.notes.len(), 1);
    let n = &s.board.notes[0];
    assert_eq!(n.id, 1);
    assert_eq!(n.text, "New note");
    assert_eq!(n.pos, Vec2i { x: coord(50.0), y: coord(50.0) });
    assert_eq!(n.size, Vec2i { x: coord(120.0), y: coord(80.0) });
    assert_eq!(n.color, yellow());
}

fn sample_note(id: u64, text: &str) -> NoteData {
    NoteData {
        id,
        text: text.to_owned(),
        pos: Vec2i { x: 0, y: 0 },
        size: Vec2i { x: coord(10.0), y: coord(10.0) },
        color: black(),
    }
}

fn sample_board(notes: Vec<NoteData>) -> Board {
    Board {
        id: 1,
        name: "Test".to_owned(),
        background: white(),
        notes,
        scene_rect: zero_rect(),
    }
}

#[test]
fn commit_note_overwrites_matching_id() {
    let mut board = sample_board(vec![sample_note(1, "one"), sample_note(2, "two")]);
    let mut edited = sample_note(2, "changed");
    edited.pos = Vec2i { x: 5, y: 6 };
    board.commit_note(&edited);
    assert_eq!(board.notes[0], sample_note(1, "one"));
    assert_eq!(board.notes[1], edited);
}

#[test]
fn commit_note_without_match_changes_nothing() {
    let mut board = sample_board(vec![sample_note(1, "one")]);
    let before = board.clone();
    board.commit_note(&sample_note(9, "ghost"));
    assert_eq!(board, before);
}

#[test]
fn commit_text_color_keeps_position() {
    let mut board = sample_board(vec![sample_note(1, "one")]);
    board.commit_text_color(1, "renamed", white());
    assert_eq!(board.notes[0].text, "renamed");
    assert_eq!(board.notes[0].color, white());
    assert_eq!(board.notes[0].pos, Vec2i { x: 0, y: 0 });
    assert_eq!(board.notes[0].size, Vec2i { x: coord(10.0), y: coord(10.0) });
}

#[test]
fn commit_position_moves_only_position() {
    let mut board = sample_board(vec![sample_note(1, "one")]);
    board.commit_position(1, Vec2i { x: coord(50.0), y: coord(100.0) });
    assert_eq!(board.notes[0].pos, Vec2i { x: coord(50.0), y: coord(100.0) });
    assert_eq!(board.notes[0].text, "one");
}

#[test]
fn focus_on_note_recenters_viewport() {
    let mut board = sample_board(vec![NoteData {
        id: 1,
        text: "n".to_owned(),
        pos: Vec2i { x: 100, y: 200 },
        size: Vec2i { x: 40, y: 60 },
        color: black(),
    }]);
    board.scene_rect = Recti { min: Vec2i { x: 0, y: 0 }, size: Vec2i { x: 10, y: 20 } };
    board.focus_on_note(1);
    // note center (120, 230); viewport keeps extent (10, 20), so its corner
    // moves to (115, 220)
    assert_eq!(board.scene_rect.size, Vec2i { x: 10, y: 20 });
    assert_eq!(board.scene_rect.min, Vec2i { x: 115, y: 220 });
}

#[test]
fn focus_on_missing_note_changes_nothing() {
    let mut board = sample_board(vec![sample_note(1, "one")]);
    let before = board.clone();
    board.focus_on_note(7);
    assert_eq!(board, before);
}
