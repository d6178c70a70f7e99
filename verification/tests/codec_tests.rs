use plop::{AppState, Board, NoteData, Recti, Rgba, Vec2i};

fn coord(v: f32) -> i64 {
    (v * 1000.0).round() as i64
}

fn white() -> Rgba {
    Rgba { r: 255, g: 255, b: 255, a: 255 }
}

fn black() -> Rgba {
    Rgba { r: 0, g: 0, b: 0, a: 255 }
}

fn zero_rect() -> Recti {
    Recti { min: Vec2i { x: 0, y: 0 }, size: Vec2i { x: 0, y: 0 } }
}

#[test]
fn save_and_load_roundtrip() {
    let mut state = AppState::default();
    let board = Board {
        id: 1,
        name: "Test".to_owned(),
        background: white(),
        notes: vec![NoteData {
            id: 1,
            text: "hi".to_owned(),
            pos: Vec2i { x: coord(1.0), y: coord(2.0) },
            size: Vec2i { x: coord(10.0), y: coord(10.0) },
            color: black(),
        }],
        scene_rect: zero_rect(),
    };
    state.board = board;

    let text = state.to_json();
    let loaded = AppState::from_json(&text);
    assert_eq!(state, loaded);
}

#[test]
fn load_missing_file_returns_default() {
    let loaded = AppState::load_from_content(None);
    assert_eq!(loaded, AppState::default());
}

#[test]
fn load_invalid_json_returns_default() {
    let loaded = AppState::from_json("not valid json");
    assert_eq!(loaded, AppState::default());
}

#[test]
fn edited_note_persists_after_save_load() {
    let mut state = AppState::default();
    let mut board = Board {
        id: 1,
        name: "Test".to_owned(),
        background: white(),
        notes: vec![NoteData {
            id: 1,
            text: "hello".to_owned(),
            pos: Vec2i { x: 0, y: 0 },
            size: Vec2i { x: coord(10.0), y: coord(10.0) },
            color: black(),
        }],
        scene_rect: zero_rect(),
    };
    board.notes[0].text = "edited".to_owned();
    state.board = board.clone();

    let text = state.to_json();
    let loaded = AppState::from_json(&text);
    assert_eq!(loaded.board.notes[0].text, "edited");
    assert_eq!(loaded, state);
}

#[test]
fn default_store_renders_exact_text() {
    let text = AppState::default().to_json();
    let expected = "{\n  \"board\": {\n    \"id\": 1,\n    \"name\": \"Board\",\n    \"background\": [173,216,230,255],\n    \"notes\": [],\n    \"scene_rect\": [0,0,0,0]\n  },\n  \"next_note_id\": 1\n}";
    assert_eq!(text, expected);
}

#[test]
fn roundtrip_with_negative_coordinates_and_many_notes() {
    let mut state = AppState::default();
    state.next_note_id = 40;
    state.board.scene_rect = Recti {
        min: Vec2i { x: -123_456, y: 789 },
        size: Vec2i { x: 4_000_000, y: 3_000_000 },
    };
    for k in 0..7u64 {
        state.board.notes.push(NoteData {
            id: 10 + k,
            text: format!("note number {}", k),
            pos: Vec2i { x: -5_000 * (k as i64), y: 1_000 * (k as i64) },
            size: Vec2i { x: 120_000, y: 80_000 },
            color: Rgba { r: k as u8, g: 200, b: 10, a: 255 },
        });
    }
    let text = state.to_json();
    assert_eq!(AppState::from_json(&text), state);
}

#[test]
fn roundtrip_escapes_special_text() {
    let mut state = AppState::default();
    state.board.notes.push(NoteData {
        id: 1,
        text: "a \"quoted\" piece, a back\\slash,\na new line\tand a tab\r".to_owned(),
        pos: Vec2i { x: 0, y: 0 },
        size: Vec2i { x: 1, y: 1 },
        color: black(),
    });
    state.board.name = "board \"x\"\\".to_owned();
    let text = state.to_json();
    assert_eq!(AppState::from_json(&text), state);
}

#[test]
fn roundtrip_with_extreme_numbers() {
    let mut state = AppState::default();
    state.next_note_id = u64::MAX;
    state.board.scene_rect = Recti {
        min: Vec2i { x: i64::MIN, y: i64::MAX },
        size: Vec2i { x: -1, y: 0 },
    };
    let text = state.to_json();
    assert_eq!(AppState::from_json(&text), state);
}

#[test]
fn load_accepts_extra_whitespace() {
    let mut state = AppState::default();
    state.board.name = "Spaced".to_owned();
    let text = state.to_json();
    let spaced = text.replace(":", " : ").replace(",", " ,\n ");
    let with_margin = format!("\n\t {} \n", spaced);
    assert_eq!(AppState::from_json(&with_margin), state);
}

#[test]
fn load_rejects_trailing_garbage() {
    let text = AppState::default().to_json();
    let broken = format!("{}x", text);
    assert_eq!(AppState::from_json(&broken), AppState::default());
}

#[test]
fn load_rejects_truncated_snapshot() {
    let text = AppState::default().to_json();
    let truncated = &text[..text.len() - 2];
    let mut other = AppState::default();
    other.board.name = "Other".to_owned();
    // parsing fails, so even a store that held other data loads as default
    assert_eq!(AppState::from_json(truncated), AppState::default());
    assert_ne!(AppState::from_json(&other.to_json()), AppState::default());
}

#[test]
fn load_rejects_out_of_range_numbers() {
    let text = AppState::default()
        .to_json()
        .replace("\"next_note_id\": 1", "\"next_note_id\": 99999999999999999999");
    assert_eq!(AppState::from_json(&text), AppState::default());
    let text = AppState::default()
        .to_json()
        .replace("\"background\": [173,216,230,255]", "\"background\": [300,0,0,255]");
    assert_eq!(AppState::from_json(&text), AppState::default());
}

#[test]
fn snapshot_text_is_well_formed_json() {
    let mut state = AppState::default();
    state.board.notes.push(NoteData {
        id: 3,
        text: "check \"me\"\nplease".to_owned(),
        pos: Vec2i { x: -1, y: 2 },
        size: Vec2i { x: 5, y: 6 },
        color: Rgba { r: 1, g: 2, b: 3, a: 4 },
    });
    let text = state.to_json();
    let value: serde_json::Value = serde_json::from_str(&text).unwrap();
    assert_eq!(value["board"]["name"], "Board");
    assert_eq!(value["board"]["notes"][0]["id"], 3);
    assert_eq!(value["board"]["notes"][0]["text"], "check \"me\"\nplease");
    assert_eq!(value["next_note_id"], 1);
}

#[test]
fn inconsistent_counter_store_saves_and_loads() {
    // a snapshot whose counter lags behind an existing note identifier
    // (as after loading an older file) is still carried through whole
    let mut state = AppState::default();
    state.board.notes.push(NoteData {
        id: 10,
        text: "survivor".to_owned(),
        pos: Vec2i { x: 0, y: 0 },
        size: Vec2i { x: 1, y: 1 },
        color: black(),
    });
    state.next_note_id = 1;
    let text = state.to_json();
    assert_eq!(AppState::from_json(&text), state);
}
