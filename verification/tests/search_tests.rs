use plop::{focus_on_match, highlight_ranges, update_search, AppState, NoteData, Rgba, SearchState, Vec2i};

fn note(id: u64, text: &str) -> NoteData {
    NoteData {
        id,
        text: text.to_owned(),
        pos: Vec2i { x: 1_000 * (id as i64), y: 0 },
        size: Vec2i { x: 100, y: 100 },
        color: Rgba { r: 0, g: 0, b: 0, a: 255 },
    }
}

fn state_with_notes(texts: &[&str]) -> AppState {
    let mut s = AppState::default();
    for (k, t) in texts.iter().enumerate() {
        s.board.notes.push(note(k as u64 + 1, t));
    }
    s
}

#[test]
fn update_search_is_case_insensitive() {
    let state = state_with_notes(&["Hello World", "bye", "say HELLO twice"]);
    let mut search = SearchState::default();
    search.query = "hello".to_owned();
    search.current = 7;
    update_search(&state, &mut search);
    assert_eq!(search.matches, vec![1, 3]);
    assert_eq!(search.current, 0);
}

#[test]
fn update_search_with_empty_query_clears_matches() {
    let state = state_with_notes(&["Hello"]);
    let mut search = SearchState::default();
    search.query = "hello".to_owned();
    update_search(&state, &mut search);
    assert_eq!(search.matches, vec![1]);
    search.query = String::new();
    update_search(&state, &mut search);
    assert!(search.matches.is_empty());
}

#[test]
fn match_stepping_wraps_both_ways() {
    let state = state_with_notes(&["a", "ba", "ab"]);
    let mut search = SearchState::default();
    search.query = "a".to_owned();
    update_search(&state, &mut search);
    assert_eq!(search.matches, vec![1, 2, 3]);
    assert_eq!(search.current_match(), Some(1));
    search.next_match();
    assert_eq!(search.current_match(), Some(2));
    search.next_match();
    search.next_match();
    assert_eq!(search.current_match(), Some(1));
    search.prev_match();
    assert_eq!(search.current_match(), Some(3));
    search.prev_match();
    assert_eq!(search.current_match(), Some(2));
}

#[test]
fn stepping_without_matches_changes_nothing() {
    let mut search = SearchState::default();
    search.next_match();
    search.prev_match();
    assert_eq!(search.current, 0);
    assert_eq!(search.current_match(), None);
}

#[test]
fn focus_on_match_centers_current_note() {
    let mut state = state_with_notes(&["findme"]);
    state.board.scene_rect.size = Vec2i { x: 50, y: 30 };
    let mut search = SearchState::default();
    search.query = "findme".to_owned();
    update_search(&state, &mut search);
    focus_on_match(&mut state, &search);
    // the note sits at (1000, 0) with extent (100, 100): center (1050, 50);
    // the viewport keeps extent (50, 30) and its corner moves to (1025, 35)
    assert_eq!(state.board.scene_rect.size, Vec2i { x: 50, y: 30 });
    assert_eq!(state.board.scene_rect.min, Vec2i { x: 1025, y: 35 });
}

#[test]
fn focus_without_current_match_changes_nothing() {
    let mut state = state_with_notes(&["a"]);
    let before = state.clone();
    let search = SearchState::default();
    focus_on_match(&mut state, &search);
    assert_eq!(state, before);
}

#[test]
fn highlight_ranges_finds_all_occurrences() {
    assert_eq!(highlight_ranges("abcabc", "ABC"), vec![(0, 3), (3, 6)]);
    assert_eq!(highlight_ranges("xAbCx", "abc"), vec![(1, 4)]);
    assert_eq!(highlight_ranges("none here", "zzz"), vec![]);
}

#[test]
fn highlight_ranges_does_not_overlap() {
    assert_eq!(highlight_ranges("aaa", "aa"), vec![(0, 2)]);
    assert_eq!(highlight_ranges("aaaa", "aa"), vec![(0, 2), (2, 4)]);
}

#[test]
fn highlight_ranges_with_empty_query_is_empty() {
    assert_eq!(highlight_ranges("anything", ""), vec![]);
}
