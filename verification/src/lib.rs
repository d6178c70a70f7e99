//! Durable state for a sticky-notes board: boards, notes, identifier
//! allocation, grid snapping, and a text snapshot format with a verified
//! round trip.

pub mod codec;
pub mod geom;
pub mod jsontext;
pub mod lifecycle;
pub mod search;
pub mod store;

pub use geom::snap_to_grid;
pub use geom::Recti;
pub use geom::Vec2i;
pub use lifecycle::note_step;
pub use lifecycle::NoteEffect;
pub use lifecycle::NoteInput;
pub use lifecycle::NotePhase;
pub use search::focus_on_match;
pub use search::highlight_ranges;
pub use search::update_search;
pub use search::SearchState;
pub use store::AppState;
pub use store::Board;
pub use store::NoteData;
pub use store::Rgba;
