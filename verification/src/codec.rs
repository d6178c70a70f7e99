//! The snapshot text format: a fixed-shape, human-readable JSON encoding of
//! the store, written by [`AppState::to_json`] and read back by
//! [`AppState::from_json`].
//!
//! The renderer emits one canonical, pretty-printed text per store value;
//! the parser accepts that text with arbitrary whitespace between tokens,
//! and is proved to read every rendered snapshot back to the exact store
//! value it came from. Anything else is malformed and loads as the default
//! store. Inside quoted strings, `"`, `\`, line breaks, tabs and carriage
//! returns are escaped with a backslash; other characters stand for
//! themselves.

use crate::geom::{Recti, Vec2i};
use crate::jsontext::{
    dec_digits, dec_i64, expect, is_ws, json_str, lemma_rt_i64, lemma_rt_lit,
    lemma_rt_string, lemma_rt_u64, lemma_skip_ws_run, lemma_suffix_advance, nlsp, parse_i64_x,
    parse_lit, parse_string_x, parse_u64_x, push_char, push_dec_i64, push_dec_u64,
    push_json_str, push_nlsp, skip_ws, skip_ws_x, sp, spec_parse_i64, spec_parse_string,
    spec_parse_u64, str_chars,
};
use crate::store::{AppState, Board, BoardV, NoteData, NoteV, Rgba, StateV};
use vstd::prelude::*;
use vstd::string::StringExecFns;
use vstd::string::StrSliceExecFns;

verus! {

/// Canonical text of a color: the four channels in brackets.
pub open spec fn jv_rgba(c: Rgba) -> Seq<char> {
    "["@ + dec_digits(c.r as nat) + ","@ + dec_digits(c.g as nat) + ","@ + dec_digits(
        c.b as nat,
    ) + ","@ + dec_digits(c.a as nat) + "]"@
}

/// Canonical text of a point or extent: both axes in brackets.
pub open spec fn jv_vec2(v: Vec2i) -> Seq<char> {
    "["@ + dec_i64(v.x) + ","@ + dec_i64(v.y) + "]"@
}

/// Canonical text of a rectangle: corner then extent, in brackets.
pub open spec fn jv_rect(r: Recti) -> Seq<char> {
    "["@ + dec_i64(r.min.x) + ","@ + dec_i64(r.min.y) + ","@ + dec_i64(r.size.x) + ","@
        + dec_i64(r.size.y) + "]"@
}

/// Canonical text of one note.
pub open spec fn jv_note(n: NoteV) -> Seq<char> {
    "{"@ + nlsp(8) + "\"id\":"@ + sp(1) + dec_digits(n.id as nat) + ","@ + nlsp(8)
        + "\"text\":"@ + sp(1) + json_str(n.text) + ","@ + nlsp(8) + "\"pos\":"@ + sp(1)
        + jv_vec2(n.pos) + ","@ + nlsp(8) + "\"size\":"@ + sp(1) + jv_vec2(n.size) + ","@
        + nlsp(8) + "\"color\":"@ + sp(1) + jv_rgba(n.color) + nlsp(6) + "}"@
}

/// Canonical text of a nonempty run of notes, comma-separated.
pub open spec fn jv_notes_items(notes: Seq<NoteV>) -> Seq<char>
    recommends
        notes.len() >= 1,
    decreases notes.len(),
{
    if notes.len() <= 1 {
        jv_note(notes[0])
    } else {
        jv_note(notes[0]) + ","@ + nlsp(6) + jv_notes_items(notes.drop_first())
    }
}

/// Canonical text of the note list.
pub open spec fn jv_notes(notes: Seq<NoteV>) -> Seq<char> {
    if notes.len() == 0 {
        "[]"@
    } else {
        "["@ + nlsp(6) + jv_notes_items(notes) + nlsp(4) + "]"@
    }
}

/// Canonical text of the board.
pub open spec fn jv_board(b: BoardV) -> Seq<char> {
    "{"@ + nlsp(4) + "\"id\":"@ + sp(1) + dec_digits(b.id as nat) + ","@ + nlsp(4)
        + "\"name\":"@ + sp(1) + json_str(b.name) + ","@ + nlsp(4) + "\"background\":"@ + sp(1)
        + jv_rgba(b.background) + ","@ + nlsp(4) + "\"notes\":"@ + sp(1) + jv_notes(b.notes)
        + ","@ + nlsp(4) + "\"scene_rect\":"@ + sp(1) + jv_rect(b.scene_rect) + nlsp(2) + "}"@
}

/// Canonical text of the whole snapshot.
pub open spec fn jv_state(s: StateV) -> Seq<char> {
    "{"@ + nlsp(2) + "\"board\":"@ + sp(1) + jv_board(s.board) + ","@ + nlsp(2)
        + "\"next_note_id\":"@ + sp(1) + dec_digits(s.next_note_id as nat) + nlsp(0) + "}"@
}

/// Parse a color.
pub open spec fn spec_parse_rgba(s: Seq<char>, i: int) -> Option<(Rgba, int)>
    recommends
        0 <= i <= s.len(),
{
    match parse_lit(s, i, "["@) {
        None => None,
        Some(i1) => match spec_parse_u64(s, i1) {
            None => None,
            Some((r, i2)) => if r > 255 {
                None
            } else {
                match parse_lit(s, i2, ","@) {
                    None => None,
                    Some(i3) => match spec_parse_u64(s, i3) {
                        None => None,
                        Some((g, i4)) => if g > 255 {
                            None
                        } else {
                            match parse_lit(s, i4, ","@) {
                                None => None,
                                Some(i5) => match spec_parse_u64(s, i5) {
                                    None => None,
                                    Some((b, i6)) => if b > 255 {
                                        None
                                    } else {
                                        match parse_lit(s, i6, ","@) {
                                            None => None,
                                            Some(i7) => match spec_parse_u64(s, i7) {
                                                None => None,
                                                Some((a, i8)) => if a > 255 {
                                                    None
                                                } else {
                                                    match parse_lit(s, i8, "]"@) {
                                                        None => None,
                                                        Some(i9) => Some(
                                                            (
                                                                Rgba {
                                                                    r: r as u8,
                                                                    g: g as u8,
                                                                    b: b as u8,
                                                                    a: a as u8,
                                                                },
                                                                i9,
                                                            ),
                                                        ),
                                                    }
                                                },
                                            },
                                        }
                                    },
                                },
                            }
                        },
                    },
                }
            },
        },
    }
}

/// Parse a point or extent.
pub open spec fn spec_parse_vec2(s: Seq<char>, i: int) -> Option<(Vec2i, int)>
    recommends
        0 <= i <= s.len(),
{
    match parse_lit(s, i, "["@) {
        None => None,
        Some(i1) => match spec_parse_i64(s, i1) {
            None => None,
            Some((x, i2)) => match parse_lit(s, i2, ","@) {
                None => None,
                Some(i3) => match spec_parse_i64(s, i3) {
                    None => None,
                    Some((y, i4)) => match parse_lit(s, i4, "]"@) {
                        None => None,
                        Some(i5) => Some((Vec2i { x, y }, i5)),
                    },
                },
            },
        },
    }
}

/// Parse a rectangle.
pub open spec fn spec_parse_rect(s: Seq<char>, i: int) -> Option<(Recti, int)>
    recommends
        0 <= i <= s.len(),
{
    match parse_lit(s, i, "["@) {
        None => None,
        Some(i1) => match spec_parse_i64(s, i1) {
            None => None,
            Some((x, i2)) => match parse_lit(s, i2, ","@) {
                None => None,
                Some(i3) => match spec_parse_i64(s, i3) {
                    None => None,
                    Some((y, i4)) => match parse_lit(s, i4, ","@) {
                        None => None,
                        Some(i5) => match spec_parse_i64(s, i5) {
                            None => None,
                            Some((w, i6)) => match parse_lit(s, i6, ","@) {
                                None => None,
                                Some(i7) => match spec_parse_i64(s, i7) {
                                    None => None,
                                    Some((h, i8)) => match parse_lit(s, i8, "]"@) {
                                        None => None,
                                        Some(i9) => Some(
                                            (
                                                Recti {
                                                    min: Vec2i { x, y },
                                                    size: Vec2i { x: w, y: h },
                                                },
                                                i9,
                                            ),
                                        ),
                                    },
                                },
                            },
                        },
                    },
                },
            },
        },
    }
}

/// Parse one note object.
pub open spec fn spec_parse_note(s: Seq<char>, i: int) -> Option<(NoteV, int)>
    recommends
        0 <= i <= s.len(),
{
    match parse_lit(s, i, "{"@) {
        None => None,
        Some(i1) => match parse_lit(s, i1, "\"id\""@) {
            None => None,
            Some(i2) => match parse_lit(s, i2, ":"@) {
                None => None,
                Some(i3) => match spec_parse_u64(s, i3) {
                    None => None,
                    Some((id, i4)) => match parse_lit(s, i4, ","@) {
                        None => None,
                        Some(i5) => match parse_lit(s, i5, "\"text\""@) {
                            None => None,
                            Some(i6) => match parse_lit(s, i6, ":"@) {
                                None => None,
                                Some(i7) => match spec_parse_string(s, i7) {
                                    None => None,
                                    Some((text, i8)) => match parse_lit(s, i8, ","@) {
                                        None => None,
                                        Some(i9) => match parse_lit(s, i9, "\"pos\""@) {
                                            None => None,
                                            Some(i10) => match parse_lit(s, i10, ":"@) {
                                                None => None,
                                                Some(i11) => match spec_parse_vec2(s, i11) {
                                                    None => None,
                                                    Some((pos, i12)) => match parse_lit(
                                                        s,
                                                        i12,
                                                        ","@,
                                                    ) {
                                                        None => None,
                                                        Some(i13) => match parse_lit(
                                                            s,
                                                            i13,
                                                            "\"size\""@,
                                                        ) {
                                                            None => None,
                                                            Some(i14) => match parse_lit(
                                                                s,
                                                                i14,
                                                                ":"@,
                                                            ) {
                                                                None => None,
                                                                Some(i15) => match spec_parse_vec2(
                                                                    s,
                                                                    i15,
                                                                ) {
                                                                    None => None,
                                                                    Some((size, i16)) => match parse_lit(
                                                                        s,
                                                                        i16,
                                                                        ","@,
                                                                    ) {
                                                                        None => None,
                                                                        Some(i17) => match parse_lit(
                                                                            s,
                                                                            i17,
                                                                            "\"color\""@,
                                                                        ) {
                                                                            None => None,
                                                                            Some(i18) => match parse_lit(
                                                                                s,
                                                                                i18,
                                                                                ":"@,
                                                                            ) {
                                                                                None => None,
                                                                                Some(i19) => match spec_parse_rgba(
                                                                                    s,
                                                                                    i19,
                                                                                ) {
                                                                                    None => None,
                                                                                    Some(
                                                                                        (color, i20),
                                                                                    ) => match parse_lit(
                                                                                        s,
                                                                                        i20,
                                                                                        "}"@,
                                                                                    ) {
                                                                                        None => None,
                                                                                        Some(i21) => Some(
                                                                                            (
                                                                                                NoteV {
                                                                                                    id,
                                                                                                    text,
                                                                                                    pos,
                                                                                                    size,
                                                                                                    color,
                                                                                                },
                                                                                                i21,
                                                                                            ),
                                                                                        ),
                                                                                    },
                                                                                },
                                                                            },
                                                                        },
                                                                    },
                                                                },
                                                            },
                                                        },
                                                    },
                                                },
                                            },
                                        },
                                    },
                                },
                            },
                        },
                    },
                },
            },
        },
    }
}

/// Parse the notes that follow the first one, or close the list.
pub open spec fn spec_parse_notes_more(s: Seq<char>, i: int) -> Option<(Seq<NoteV>, int)>
    decreases s.len() - i
        when 0 <= i <= s.len()
{
    match spec_parse_note(s, i) {
        None => None,
        Some((n, j)) => if !(i < j <= s.len()) {
            None
        } else {
            match parse_lit(s, j, ","@) {
                Some(k) => if !(j < k <= s.len()) {
                    None
                } else {
                    match spec_parse_notes_more(s, k) {
                        None => None,
                        Some((rest, e)) => Some((seq![n] + rest, e)),
                    }
                },
                None => match parse_lit(s, j, "]"@) {
                    None => None,
                    Some(k) => Some((seq![n], k)),
                },
            }
        },
    }
}

/// Parse the note list.
pub open spec fn spec_parse_notes(s: Seq<char>, i: int) -> Option<(Seq<NoteV>, int)>
    recommends
        0 <= i <= s.len(),
{
    match parse_lit(s, i, "["@) {
        None => None,
        Some(i1) => match parse_lit(s, i1, "]"@) {
            Some(i2) => Some((Seq::empty(), i2)),
            None => spec_parse_notes_more(s, i1),
        },
    }
}

/// Parse the opening of a board object: identifier, name and background.
pub open spec fn spec_parse_board_head(s: Seq<char>, i: int) -> Option<((u64, Seq<char>, Rgba), int)>
    recommends
        0 <= i <= s.len(),
{
    match parse_lit(s, i, "{"@) {
        None => None,
        Some(i1) => match parse_lit(s, i1, "\"id\""@) {
            None => None,
            Some(i2) => match parse_lit(s, i2, ":"@) {
                None => None,
                Some(i3) => match spec_parse_u64(s, i3) {
                    None => None,
                    Some((id, i4)) => match parse_lit(s, i4, ","@) {
                        None => None,
                        Some(i5) => match parse_lit(s, i5, "\"name\""@) {
                            None => None,
                            Some(i6) => match parse_lit(s, i6, ":"@) {
                                None => None,
                                Some(i7) => match spec_parse_string(s, i7) {
                                    None => None,
                                    Some((name, i8)) => match parse_lit(s, i8, ","@) {
                                        None => None,
                                        Some(i9) => match parse_lit(s, i9, "\"background\""@) {
                                            None => None,
                                            Some(i10) => match parse_lit(s, i10, ":"@) {
                                                None => None,
                                                Some(i11) => match spec_parse_rgba(s, i11) {
                                                    None => None,
                                                    Some((background, i12)) => Some(
                                                        ((id, name, background), i12),
                                                    ),
                                                },
                                            },
                                        },
                                    },
                                },
                            },
                        },
                    },
                },
            },
        },
    }
}

/// Parse the rest of a board object: notes and viewport rectangle.
pub open spec fn spec_parse_board_tail(s: Seq<char>, i: int) -> Option<((Seq<NoteV>, Recti), int)>
    recommends
        0 <= i <= s.len(),
{
    match parse_lit(s, i, ","@) {
        None => None,
        Some(i1) => match parse_lit(s, i1, "\"notes\""@) {
            None => None,
            Some(i2) => match parse_lit(s, i2, ":"@) {
                None => None,
                Some(i3) => match spec_parse_notes(s, i3) {
                    None => None,
                    Some((notes, i4)) => match parse_lit(s, i4, ","@) {
                        None => None,
                        Some(i5) => match parse_lit(s, i5, "\"scene_rect\""@) {
                            None => None,
                            Some(i6) => match parse_lit(s, i6, ":"@) {
                                None => None,
                                Some(i7) => match spec_parse_rect(s, i7) {
                                    None => None,
                                    Some((scene_rect, i8)) => match parse_lit(s, i8, "}"@) {
                                        None => None,
                                        Some(i9) => Some(((notes, scene_rect), i9)),
                                    },
                                },
                            },
                        },
                    },
                },
            },
        },
    }
}

/// Parse the board object.
pub open spec fn spec_parse_board(s: Seq<char>, i: int) -> Option<(BoardV, int)>
    recommends
        0 <= i <= s.len(),
{
    match spec_parse_board_head(s, i) {
        None => None,
        Some(((id, name, background), j)) => match spec_parse_board_tail(s, j) {
            None => None,
            Some(((notes, scene_rect), k)) => Some(
                (BoardV { id, name, background, notes, scene_rect }, k),
            ),
        },
    }
}

/// Parse the root object.
pub open spec fn spec_parse_state(s: Seq<char>, i: int) -> Option<(StateV, int)>
    recommends
        0 <= i <= s.len(),
{
    match parse_lit(s, i, "{"@) {
        None => None,
        Some(i1) => match parse_lit(s, i1, "\"board\""@) {
            None => None,
            Some(i2) => match parse_lit(s, i2, ":"@) {
                None => None,
                Some(i3) => match spec_parse_board(s, i3) {
                    None => None,
                    Some((board, i4)) => match parse_lit(s, i4, ","@) {
                        None => None,
                        Some(i5) => match parse_lit(s, i5, "\"next_note_id\""@) {
                            None => None,
                            Some(i6) => match parse_lit(s, i6, ":"@) {
                                None => None,
                                Some(i7) => match spec_parse_u64(s, i7) {
                                    None => None,
                                    Some((next_note_id, i8)) => match parse_lit(s, i8, "}"@) {
                                        None => None,
                                        Some(i9) => Some((StateV { board, next_note_id }, i9)),
                                    },
                                },
                            },
                        },
                    },
                },
            },
        },
    }
}

/// Read a whole snapshot text: the root object with nothing but whitespace
/// after it.
pub open spec fn parse_snapshot(s: Seq<char>) -> Option<StateV> {
    match spec_parse_state(s, 0) {
        None => None,
        Some((v, j)) => if 0 <= j <= s.len() && skip_ws(s, j) == s.len() {
            Some(v)
        } else {
            None
        },
    }
}


/// Spaces are whitespace.
proof fn lemma_sp_ws(n: nat)
    ensures
        sp(n).len() == n,
        forall|k: int| 0 <= k < sp(n).len() ==> is_ws(sp(n)[k]),
{
    assert forall|k: int| 0 <= k < sp(n).len() implies is_ws(sp(n)[k]) by {
        assert(sp(n)[k] == ' ');
    }
}

/// A line break with indentation is whitespace throughout.
proof fn lemma_nlsp_ws(n: nat)
    ensures
        nlsp(n).len() == n + 1,
        forall|k: int| 0 <= k < nlsp(n).len() ==> is_ws(nlsp(n)[k]),
{
    lemma_sp_ws(n);
    assert forall|k: int| 0 <= k < nlsp(n).len() implies is_ws(nlsp(n)[k]) by {
        if k == 0 {
            assert(nlsp(n)[k] == '\n');
        } else {
            assert(nlsp(n)[k] == sp(n)[k - 1]);
        }
    }
}

/// Where, after whitespace, the next character is not the first character
/// of `lit`, matching `lit` fails.
proof fn lemma_parse_lit_none(s: Seq<char>, i: int, w: Seq<char>, lit: Seq<char>, rest: Seq<char>)
    requires
        0 <= i <= s.len(),
        s.subrange(i, s.len() as int) == w + rest,
        forall|k: int| 0 <= k < w.len() ==> is_ws(w[k]),
        rest.len() > 0,
        !is_ws(rest[0]),
        lit.len() > 0,
        lit[0] != rest[0],
    ensures
        parse_lit(s, i, lit) is None,
{
    lemma_suffix_advance(s, i, w, rest);
    let j = i + w.len();
    assert forall|k: int| i <= k < j implies is_ws(s[k]) by {
        assert(is_ws(w[k - i]));
        assert(s[i + (k - i)] == w[k - i]);
    }
    assert(s.subrange(j, s.len() as int)[0] == s[j + 0]);
    assert(s[j] == rest[0]);
    lemma_skip_ws_run(s, i, j);
    if j + lit.len() <= s.len() {
        assert(s.subrange(j, j + lit.len() as int)[0] == s[j + 0]);
        assert(s.subrange(j, j + lit.len() as int) != lit);
    }
}

/// A color's canonical text parses back to the same color.
#[verifier::rlimit(60)]
proof fn lemma_rt_rgba(s: Seq<char>, i: int, w: Seq<char>, c: Rgba, rest: Seq<char>)
    requires
        0 <= i <= s.len(),
        s.subrange(i, s.len() as int) == w + (jv_rgba(c) + rest),
        forall|k: int| 0 <= k < w.len() ==> is_ws(w[k]),
    ensures
        spec_parse_rgba(s, i) == Some((c, i + w.len() + jv_rgba(c).len())),
        s.subrange(i + w.len() + jv_rgba(c).len(), s.len() as int) == rest,
{
    reveal_strlit("[");
    reveal_strlit(",");
    reveal_strlit("]");
    let e = Seq::<char>::empty();
    let dr = dec_digits(c.r as nat);
    let dg = dec_digits(c.g as nat);
    let db = dec_digits(c.b as nat);
    let da = dec_digits(c.a as nat);
    let t8 = "]"@ + rest;
    let t7 = da + t8;
    let t6 = ","@ + t7;
    let t5 = db + t6;
    let t4 = ","@ + t5;
    let t3 = dg + t4;
    let t2 = ","@ + t3;
    let t1 = dr + t2;
    assert(jv_rgba(c) + rest =~= "["@ + t1);
    lemma_rt_lit(s, i, w, "["@, t1);
    let i1 = i + w.len() + 1;
    assert(t1 =~= e + (dr + t2));
    lemma_rt_u64(s, i1, e, c.r as u64, t2);
    let i2 = i1 + dr.len();
    assert(t2 =~= e + (","@ + t3));
    lemma_rt_lit(s, i2, e, ","@, t3);
    let i3 = i2 + 1;
    assert(t3 =~= e + (dg + t4));
    lemma_rt_u64(s, i3, e, c.g as u64, t4);
    let i4 = i3 + dg.len();
    assert(t4 =~= e + (","@ + t5));
    lemma_rt_lit(s, i4, e, ","@, t5);
    let i5 = i4 + 1;
    assert(t5 =~= e + (db + t6));
    lemma_rt_u64(s, i5, e, c.b as u64, t6);
    let i6 = i5 + db.len();
    assert(t6 =~= e + (","@ + t7));
    lemma_rt_lit(s, i6, e, ","@, t7);
    let i7 = i6 + 1;
    assert(t7 =~= e + (da + t8));
    lemma_rt_u64(s, i7, e, c.a as u64, t8);
    let i8 = i7 + da.len();
    assert(t8 =~= e + ("]"@ + rest));
    lemma_rt_lit(s, i8, e, "]"@, rest);
    let i9 = i8 + 1;
    assert(i9 == i + w.len() + jv_rgba(c).len());
}

/// A point's canonical text parses back to the same point.
#[verifier::rlimit(60)]
proof fn lemma_rt_vec2(s: Seq<char>, i: int, w: Seq<char>, v: Vec2i, rest: Seq<char>)
    requires
        0 <= i <= s.len(),
        s.subrange(i, s.len() as int) == w + (jv_vec2(v) + rest),
        forall|k: int| 0 <= k < w.len() ==> is_ws(w[k]),
    ensures
        spec_parse_vec2(s, i) == Some((v, i + w.len() + jv_vec2(v).len())),
        s.subrange(i + w.len() + jv_vec2(v).len(), s.len() as int) == rest,
{
    reveal_strlit("[");
    reveal_strlit(",");
    reveal_strlit("]");
    let e = Seq::<char>::empty();
    let dx = dec_i64(v.x);
    let dy = dec_i64(v.y);
    let t4 = "]"@ + rest;
    let t3 = dy + t4;
    let t2 = ","@ + t3;
    let t1 = dx + t2;
    assert(jv_vec2(v) + rest =~= "["@ + t1);
    lemma_rt_lit(s, i, w, "["@, t1);
    let i1 = i + w.len() + 1;
    assert(t1 =~= e + (dx + t2));
    lemma_rt_i64(s, i1, e, v.x, t2);
    let i2 = i1 + dx.len();
    assert(t2 =~= e + (","@ + t3));
    lemma_rt_lit(s, i2, e, ","@, t3);
    let i3 = i2 + 1;
    assert(t3 =~= e + (dy + t4));
    lemma_rt_i64(s, i3, e, v.y, t4);
    let i4 = i3 + dy.len();
    assert(t4 =~= e + ("]"@ + rest));
    lemma_rt_lit(s, i4, e, "]"@, rest);
    assert(i4 + 1 == i + w.len() + jv_vec2(v).len());
}

/// A rectangle's canonical text parses back to the same rectangle.
#[verifier::rlimit(60)]
proof fn lemma_rt_rect(s: Seq<char>, i: int, w: Seq<char>, r: Recti, rest: Seq<char>)
    requires
        0 <= i <= s.len(),
        s.subrange(i, s.len() as int) == w + (jv_rect(r) + rest),
        forall|k: int| 0 <= k < w.len() ==> is_ws(w[k]),
    ensures
        spec_parse_rect(s, i) == Some((r, i + w.len() + jv_rect(r).len())),
        s.subrange(i + w.len() + jv_rect(r).len(), s.len() as int) == rest,
{
    reveal_strlit("[");
    reveal_strlit(",");
    reveal_strlit("]");
    let e = Seq::<char>::empty();
    let dx = dec_i64(r.min.x);
    let dy = dec_i64(r.min.y);
    let dw = dec_i64(r.size.x);
    let dh = dec_i64(r.size.y);
    let t8 = "]"@ + rest;
    let t7 = dh + t8;
    let t6 = ","@ + t7;
    let t5 = dw + t6;
    let t4 = ","@ + t5;
    let t3 = dy + t4;
    let t2 = ","@ + t3;
    let t1 = dx + t2;
    assert(jv_rect(r) + rest =~= "["@ + t1);
    lemma_rt_lit(s, i, w, "["@, t1);
    let i1 = i + w.len() + 1;
    assert(t1 =~= e + (dx + t2));
    lemma_rt_i64(s, i1, e, r.min.x, t2);
    let i2 = i1 + dx.len();
    assert(t2 =~= e + (","@ + t3));
    lemma_rt_lit(s, i2, e, ","@, t3);
    let i3 = i2 + 1;
    assert(t3 =~= e + (dy + t4));
    lemma_rt_i64(s, i3, e, r.min.y, t4);
    let i4 = i3 + dy.len();
    assert(t4 =~= e + (","@ + t5));
    lemma_rt_lit(s, i4, e, ","@, t5);
    let i5 = i4 + 1;
    assert(t5 =~= e + (dw + t6));
    lemma_rt_i64(s, i5, e, r.size.x, t6);
    let i6 = i5 + dw.len();
    assert(t6 =~= e + (","@ + t7));
    lemma_rt_lit(s, i6, e, ","@, t7);
    let i7 = i6 + 1;
    assert(t7 =~= e + (dh + t8));
    lemma_rt_i64(s, i7, e, r.size.y, t8);
    let i8 = i7 + dh.len();
    assert(t8 =~= e + ("]"@ + rest));
    lemma_rt_lit(s, i8, e, "]"@, rest);
    assert(i8 + 1 == i + w.len() + jv_rect(r).len());
}


/// A note's canonical text parses back to the same note.
#[verifier::rlimit(100)]
#[verifier::spinoff_prover]
proof fn lemma_rt_note(s: Seq<char>, i: int, w: Seq<char>, n: NoteV, rest: Seq<char>)
    requires
        0 <= i <= s.len(),
        s.subrange(i, s.len() as int) == w + (jv_note(n) + rest),
        forall|k: int| 0 <= k < w.len() ==> is_ws(w[k]),
    ensures
        spec_parse_note(s, i) == Some((n, i + w.len() + jv_note(n).len())),
        s.subrange(i + w.len() + jv_note(n).len(), s.len() as int) == rest,
        jv_note(n).len() >= 1,
{
    reveal_strlit("{");
    reveal_strlit("}");
    reveal_strlit(",");
    reveal_strlit(":");
    reveal_strlit("\"id\"");
    reveal_strlit("\"text\"");
    reveal_strlit("\"pos\"");
    reveal_strlit("\"size\"");
    reveal_strlit("\"color\"");
    reveal_strlit("\"id\":");
    reveal_strlit("\"text\":");
    reveal_strlit("\"pos\":");
    reveal_strlit("\"size\":");
    reveal_strlit("\"color\":");
    lemma_nlsp_ws(8);
    lemma_nlsp_ws(6);
    lemma_sp_ws(1);
    let e = Seq::<char>::empty();
    let did = dec_digits(n.id as nat);
    let dtext = json_str(n.text);
    let dpos = jv_vec2(n.pos);
    let dsize = jv_vec2(n.size);
    let dcolor = jv_rgba(n.color);
    let t20 = nlsp(6) + ("}"@ + rest);
    let t19 = dcolor + t20;
    let t18 = ":"@ + (sp(1) + t19);
    let t17 = "\"color\""@ + t18;
    let t16 = ","@ + (nlsp(8) + t17);
    let t15 = dsize + t16;
    let t14 = ":"@ + (sp(1) + t15);
    let t13 = "\"size\""@ + t14;
    let t12 = ","@ + (nlsp(8) + t13);
    let t11 = dpos + t12;
    let t10 = ":"@ + (sp(1) + t11);
    let t9 = "\"pos\""@ + t10;
    let t8 = ","@ + (nlsp(8) + t9);
    let t7 = dtext + t8;
    let t6 = ":"@ + (sp(1) + t7);
    let t5 = "\"text\""@ + t6;
    let t4 = ","@ + (nlsp(8) + t5);
    let t3 = did + t4;
    let t2 = ":"@ + (sp(1) + t3);
    let t1 = "\"id\""@ + t2;
    assert("\"id\":"@ =~= "\"id\""@ + ":"@);
    assert("\"text\":"@ =~= "\"text\""@ + ":"@);
    assert("\"pos\":"@ =~= "\"pos\""@ + ":"@);
    assert("\"size\":"@ =~= "\"size\""@ + ":"@);
    assert("\"color\":"@ =~= "\"color\""@ + ":"@);
    assert(jv_note(n) + rest =~= "{"@ + (nlsp(8) + t1));
    lemma_rt_lit(s, i, w, "{"@, nlsp(8) + t1);
    let i1 = i + w.len() + 1;
    lemma_rt_lit(s, i1, nlsp(8), "\"id\""@, t2);
    let i2 = i1 + nlsp(8).len() + 4;
    assert(t2 =~= e + (":"@ + (sp(1) + t3)));
    lemma_rt_lit(s, i2, e, ":"@, sp(1) + t3);
    let i3 = i2 + 1;
    assert(sp(1) + t3 =~= sp(1) + (did + t4));
    lemma_rt_u64(s, i3, sp(1), n.id, t4);
    let i4 = i3 + 1 + did.len();
    assert(t4 =~= e + (","@ + (nlsp(8) + t5)));
    lemma_rt_lit(s, i4, e, ","@, nlsp(8) + t5);
    let i5 = i4 + 1;
    lemma_rt_lit(s, i5, nlsp(8), "\"text\""@, t6);
    let i6 = i5 + nlsp(8).len() + 6;
    assert(t6 =~= e + (":"@ + (sp(1) + t7)));
    lemma_rt_lit(s, i6, e, ":"@, sp(1) + t7);
    let i7 = i6 + 1;
    assert(sp(1) + t7 =~= sp(1) + (dtext + t8));
    lemma_rt_string(s, i7, sp(1), n.text, t8);
    let i8 = i7 + 1 + dtext.len();
    assert(t8 =~= e + (","@ + (nlsp(8) + t9)));
    lemma_rt_lit(s, i8, e, ","@, nlsp(8) + t9);
    let i9 = i8 + 1;
    lemma_rt_lit(s, i9, nlsp(8), "\"pos\""@, t10);
    let i10 = i9 + nlsp(8).len() + 5;
    assert(t10 =~= e + (":"@ + (sp(1) + t11)));
    lemma_rt_lit(s, i10, e, ":"@, sp(1) + t11);
    let i11 = i10 + 1;
    assert(sp(1) + t11 =~= sp(1) + (dpos + t12));
    lemma_rt_vec2(s, i11, sp(1), n.pos, t12);
    let i12 = i11 + 1 + dpos.len();
    assert(t12 =~= e + (","@ + (nlsp(8) + t13)));
    lemma_rt_lit(s, i12, e, ","@, nlsp(8) + t13);
    let i13 = i12 + 1;
    lemma_rt_lit(s, i13, nlsp(8), "\"size\""@, t14);
    let i14 = i13 + nlsp(8).len() + 6;
    assert(t14 =~= e + (":"@ + (sp(1) + t15)));
    lemma_rt_lit(s, i14, e, ":"@, sp(1) + t15);
    let i15 = i14 + 1;
    assert(sp(1) + t15 =~= sp(1) + (dsize + t16));
    lemma_rt_vec2(s, i15, sp(1), n.size, t16);
    let i16 = i15 + 1 + dsize.len();
    assert(t16 =~= e + (","@ + (nlsp(8) + t17)));
    lemma_rt_lit(s, i16, e, ","@, nlsp(8) + t17);
    let i17 = i16 + 1;
    lemma_rt_lit(s, i17, nlsp(8), "\"color\""@, t18);
    let i18 = i17 + nlsp(8).len() + 7;
    assert(t18 =~= e + (":"@ + (sp(1) + t19)));
    lemma_rt_lit(s, i18, e, ":"@, sp(1) + t19);
    let i19 = i18 + 1;
    assert(sp(1) + t19 =~= sp(1) + (dcolor + t20));
    lemma_rt_rgba(s, i19, sp(1), n.color, t20);
    let i20 = i19 + 1 + dcolor.len();
    lemma_rt_lit(s, i20, nlsp(6), "}"@, rest);
    let i21 = i20 + nlsp(6).len() + 1;
    assert(i21 == i + w.len() + jv_note(n).len());
    assert(spec_parse_note(s, i) == Some((n, i21)));
}


/// A nonempty run of notes followed by the list's closing bracket parses
/// back to the same notes.
#[verifier::rlimit(100)]
#[verifier::spinoff_prover]
proof fn lemma_rt_notes_more(s: Seq<char>, i: int, w: Seq<char>, notes: Seq<NoteV>, rest: Seq<char>)
    requires
        notes.len() >= 1,
        0 <= i <= s.len(),
        s.subrange(i, s.len() as int) == w + (jv_notes_items(notes) + (nlsp(4) + ("]"@ + rest))),
        forall|k: int| 0 <= k < w.len() ==> is_ws(w[k]),
    ensures
        spec_parse_notes_more(s, i) == Some(
            (notes, i + w.len() + jv_notes_items(notes).len() + nlsp(4).len() + 1),
        ),
        s.subrange(
            i + w.len() + jv_notes_items(notes).len() + nlsp(4).len() + 1,
            s.len() as int,
        ) == rest,
    decreases notes.len(),
{
    reveal_strlit("[");
    reveal_strlit("]");
    reveal_strlit(",");
    lemma_nlsp_ws(4);
    lemma_nlsp_ws(6);
    let e = Seq::<char>::empty();
    let n0 = notes[0];
    if notes.len() == 1 {
        assert(jv_notes_items(notes) == jv_note(n0));
        lemma_rt_note(s, i, w, n0, nlsp(4) + ("]"@ + rest));
        let j = i + w.len() + jv_note(n0).len();
        assert(i < j <= s.len());
        lemma_parse_lit_none(s, j, nlsp(4), ","@, "]"@ + rest);
        lemma_rt_lit(s, j, nlsp(4), "]"@, rest);
        let k = j + nlsp(4).len() + 1;
        assert(seq![n0] =~= notes);
        assert(spec_parse_notes_more(s, i) == Some((seq![n0], k)));
    } else {
        let tail = notes.drop_first();
        let items2 = jv_notes_items(tail);
        assert(jv_notes_items(notes) == jv_note(n0) + ","@ + nlsp(6) + items2);
        let t1 = ","@ + (nlsp(6) + (items2 + (nlsp(4) + ("]"@ + rest))));
        assert(w + (jv_notes_items(notes) + (nlsp(4) + ("]"@ + rest))) =~= w + (jv_note(n0)
            + t1));
        lemma_rt_note(s, i, w, n0, t1);
        let j = i + w.len() + jv_note(n0).len();
        assert(i < j <= s.len());
        assert(t1 =~= e + (","@ + (nlsp(6) + (items2 + (nlsp(4) + ("]"@ + rest))))));
        lemma_rt_lit(s, j, e, ","@, nlsp(6) + (items2 + (nlsp(4) + ("]"@ + rest))));
        let k = j + 1;
        lemma_rt_notes_more(s, k, nlsp(6), tail, rest);
        let end = k + nlsp(6).len() + items2.len() + nlsp(4).len() + 1;
        assert(seq![n0] + tail =~= notes);
        assert(spec_parse_notes_more(s, i) == Some((notes, end)));
        assert(end == i + w.len() + jv_notes_items(notes).len() + nlsp(4).len() + 1);
    }
}

/// A note list's canonical text parses back to the same notes.
#[verifier::rlimit(100)]
#[verifier::spinoff_prover]
proof fn lemma_rt_notes(s: Seq<char>, i: int, w: Seq<char>, notes: Seq<NoteV>, rest: Seq<char>)
    requires
        0 <= i <= s.len(),
        s.subrange(i, s.len() as int) == w + (jv_notes(notes) + rest),
        forall|k: int| 0 <= k < w.len() ==> is_ws(w[k]),
    ensures
        spec_parse_notes(s, i) == Some((notes, i + w.len() + jv_notes(notes).len())),
        s.subrange(i + w.len() + jv_notes(notes).len(), s.len() as int) == rest,
{
    reveal_strlit("[");
    reveal_strlit("]");
    reveal_strlit("[]");
    reveal_strlit(",");
    reveal_strlit("{");
    lemma_nlsp_ws(4);
    lemma_nlsp_ws(6);
    let e = Seq::<char>::empty();
    if notes.len() == 0 {
        assert(jv_notes(notes) == "[]"@);
        assert("[]"@ =~= "["@ + "]"@);
        assert(jv_notes(notes) + rest =~= "["@ + ("]"@ + rest));
        lemma_rt_lit(s, i, w, "["@, "]"@ + rest);
        let i1 = i + w.len() + 1;
        assert("]"@ + rest =~= e + ("]"@ + rest));
        lemma_rt_lit(s, i1, e, "]"@, rest);
        assert(notes =~= Seq::<NoteV>::empty());
        assert(spec_parse_notes(s, i) == Some((notes, i1 + 1)));
    } else {
        let items = jv_notes_items(notes);
        let t1 = nlsp(6) + (items + (nlsp(4) + ("]"@ + rest)));
        assert(jv_notes(notes) + rest =~= "["@ + t1);
        lemma_rt_lit(s, i, w, "["@, t1);
        let i1 = i + w.len() + 1;
        assert(items[0] == jv_note(notes[0])[0]) by {
            if notes.len() == 1 {
                assert(items == jv_note(notes[0]));
            } else {
                assert(items == jv_note(notes[0]) + ","@ + nlsp(6) + jv_notes_items(
                    notes.drop_first(),
                ));
                assert(jv_note(notes[0]).len() >= 1) by {
                    assert(jv_note(notes[0])[0] == "{"@[0]);
                }
            }
        }
        assert(jv_note(notes[0])[0] == "{"@[0]);
        assert(items[0] == '{');
        lemma_parse_lit_none(s, i1, nlsp(6), "]"@, items + (nlsp(4) + ("]"@ + rest)));
        lemma_rt_notes_more(s, i1, nlsp(6), notes, rest);
        assert(spec_parse_notes(s, i) == Some(
            (notes, i1 + nlsp(6).len() + items.len() + nlsp(4).len() + 1),
        ));
        assert(i1 + nlsp(6).len() + items.len() + nlsp(4).len() + 1 == i + w.len() + jv_notes(
            notes,
        ).len());
    }
}


/// The part of a board's canonical text before the notes.
spec fn jv_board_head(b: BoardV) -> Seq<char> {
    "{"@ + nlsp(4) + "\"id\":"@ + sp(1) + dec_digits(b.id as nat) + ","@ + nlsp(4)
        + "\"name\":"@ + sp(1) + json_str(b.name) + ","@ + nlsp(4) + "\"background\":"@ + sp(1)
        + jv_rgba(b.background)
}

/// The part of a board's canonical text from the notes on.
spec fn jv_board_tail(b: BoardV) -> Seq<char> {
    ","@ + nlsp(4) + "\"notes\":"@ + sp(1) + jv_notes(b.notes) + ","@ + nlsp(4)
        + "\"scene_rect\":"@ + sp(1) + jv_rect(b.scene_rect) + nlsp(2) + "}"@
}

/// The opening of a board's canonical text parses back to the same fields.
#[verifier::rlimit(100)]
#[verifier::spinoff_prover]
proof fn lemma_rt_board_head(s: Seq<char>, i: int, w: Seq<char>, b: BoardV, rest: Seq<char>)
    requires
        0 <= i <= s.len(),
        s.subrange(i, s.len() as int) == w + (jv_board_head(b) + rest),
        forall|k: int| 0 <= k < w.len() ==> is_ws(w[k]),
    ensures
        spec_parse_board_head(s, i) == Some(
            ((b.id, b.name, b.background), i + w.len() + jv_board_head(b).len()),
        ),
        s.subrange(i + w.len() + jv_board_head(b).len(), s.len() as int) == rest,
{
    reveal_strlit("{");
    reveal_strlit(",");
    reveal_strlit(":");
    reveal_strlit("\"id\"");
    reveal_strlit("\"name\"");
    reveal_strlit("\"background\"");
    reveal_strlit("\"id\":");
    reveal_strlit("\"name\":");
    reveal_strlit("\"background\":");
    lemma_nlsp_ws(4);
    lemma_sp_ws(1);
    let e = Seq::<char>::empty();
    let did = dec_digits(b.id as nat);
    let dname = json_str(b.name);
    let dbg = jv_rgba(b.background);
    let t11 = dbg + rest;
    let t10 = ":"@ + (sp(1) + t11);
    let t9 = "\"background\""@ + t10;
    let t8 = ","@ + (nlsp(4) + t9);
    let t7 = dname + t8;
    let t6 = ":"@ + (sp(1) + t7);
    let t5 = "\"name\""@ + t6;
    let t4 = ","@ + (nlsp(4) + t5);
    let t3 = did + t4;
    let t2 = ":"@ + (sp(1) + t3);
    let t1 = "\"id\""@ + t2;
    assert("\"id\":"@ =~= "\"id\""@ + ":"@);
    assert("\"name\":"@ =~= "\"name\""@ + ":"@);
    assert("\"background\":"@ =~= "\"background\""@ + ":"@);
    assert(jv_board_head(b) + rest =~= "{"@ + (nlsp(4) + t1));
    lemma_rt_lit(s, i, w, "{"@, nlsp(4) + t1);
    let i1 = i + w.len() + 1;
    lemma_rt_lit(s, i1, nlsp(4), "\"id\""@, t2);
    let i2 = i1 + nlsp(4).len() + 4;
    assert(t2 =~= e + (":"@ + (sp(1) + t3)));
    lemma_rt_lit(s, i2, e, ":"@, sp(1) + t3);
    let i3 = i2 + 1;
    assert(sp(1) + t3 =~= sp(1) + (did + t4));
    lemma_rt_u64(s, i3, sp(1), b.id, t4);
    let i4 = i3 + 1 + did.len();
    assert(t4 =~= e + (","@ + (nlsp(4) + t5)));
    lemma_rt_lit(s, i4, e, ","@, nlsp(4) + t5);
    let i5 = i4 + 1;
    lemma_rt_lit(s, i5, nlsp(4), "\"name\""@, t6);
    let i6 = i5 + nlsp(4).len() + 6;
    assert(t6 =~= e + (":"@ + (sp(1) + t7)));
    lemma_rt_lit(s, i6, e, ":"@, sp(1) + t7);
    let i7 = i6 + 1;
    assert(sp(1) + t7 =~= sp(1) + (dname + t8));
    lemma_rt_string(s, i7, sp(1), b.name, t8);
    let i8 = i7 + 1 + dname.len();
    assert(t8 =~= e + (","@ + (nlsp(4) + t9)));
    lemma_rt_lit(s, i8, e, ","@, nlsp(4) + t9);
    let i9 = i8 + 1;
    lemma_rt_lit(s, i9, nlsp(4), "\"background\""@, t10);
    let i10 = i9 + nlsp(4).len() + 12;
    assert(t10 =~= e + (":"@ + (sp(1) + t11)));
    lemma_rt_lit(s, i10, e, ":"@, sp(1) + t11);
    let i11 = i10 + 1;
    assert(sp(1) + t11 =~= sp(1) + (dbg + rest));
    lemma_rt_rgba(s, i11, sp(1), b.background, rest);
    let i12 = i11 + 1 + dbg.len();
    assert(i12 == i + w.len() + jv_board_head(b).len());
    assert(spec_parse_board_head(s, i) == Some(((b.id, b.name, b.background), i12)));
}

/// The rest of a board's canonical text parses back to the same fields.
#[verifier::rlimit(100)]
#[verifier::spinoff_prover]
proof fn lemma_rt_board_tail(s: Seq<char>, i: int, b: BoardV, rest: Seq<char>)
    requires
        0 <= i <= s.len(),
        s.subrange(i, s.len() as int) == jv_board_tail(b) + rest,
    ensures
        spec_parse_board_tail(s, i) == Some(
            ((b.notes, b.scene_rect), i + jv_board_tail(b).len()),
        ),
        s.subrange(i + jv_board_tail(b).len(), s.len() as int) == rest,
{
    reveal_strlit("}");
    reveal_strlit(",");
    reveal_strlit(":");
    reveal_strlit("\"notes\"");
    reveal_strlit("\"scene_rect\"");
    reveal_strlit("\"notes\":");
    reveal_strlit("\"scene_rect\":");
    lemma_nlsp_ws(4);
    lemma_nlsp_ws(2);
    lemma_sp_ws(1);
    let e = Seq::<char>::empty();
    let dnotes = jv_notes(b.notes);
    let drect = jv_rect(b.scene_rect);
    let t9 = nlsp(2) + ("}"@ + rest);
    let t8 = drect + t9;
    let t7 = ":"@ + (sp(1) + t8);
    let t6 = "\"scene_rect\""@ + t7;
    let t5 = ","@ + (nlsp(4) + t6);
    let t4 = dnotes + t5;
    let t3 = ":"@ + (sp(1) + t4);
    let t2 = "\"notes\""@ + t3;
    let t1 = nlsp(4) + t2;
    assert("\"notes\":"@ =~= "\"notes\""@ + ":"@);
    assert("\"scene_rect\":"@ =~= "\"scene_rect\""@ + ":"@);
    assert(jv_board_tail(b) + rest =~= ","@ + t1);
    lemma_rt_lit(s, i, e, ","@, t1);
    let i1 = i + 1;
    lemma_rt_lit(s, i1, nlsp(4), "\"notes\""@, t3);
    let i2 = i1 + nlsp(4).len() + 7;
    assert(t3 =~= e + (":"@ + (sp(1) + t4)));
    lemma_rt_lit(s, i2, e, ":"@, sp(1) + t4);
    let i3 = i2 + 1;
    assert(sp(1) + t4 =~= sp(1) + (dnotes + t5));
    lemma_rt_notes(s, i3, sp(1), b.notes, t5);
    let i4 = i3 + 1 + dnotes.len();
    assert(t5 =~= e + (","@ + (nlsp(4) + t6)));
    lemma_rt_lit(s, i4, e, ","@, nlsp(4) + t6);
    let i5 = i4 + 1;
    lemma_rt_lit(s, i5, nlsp(4), "\"scene_rect\""@, t7);
    let i6 = i5 + nlsp(4).len() + 12;
    assert(t7 =~= e + (":"@ + (sp(1) + t8)));
    lemma_rt_lit(s, i6, e, ":"@, sp(1) + t8);
    let i7 = i6 + 1;
    assert(sp(1) + t8 =~= sp(1) + (drect + t9));
    lemma_rt_rect(s, i7, sp(1), b.scene_rect, t9);
    let i8 = i7 + 1 + drect.len();
    lemma_rt_lit(s, i8, nlsp(2), "}"@, rest);
    let i9 = i8 + nlsp(2).len() + 1;
    assert(i9 == i + jv_board_tail(b).len());
    assert(spec_parse_board_tail(s, i) == Some(((b.notes, b.scene_rect), i9)));
}

/// A board's canonical text parses back to the same board.
#[verifier::rlimit(100)]
#[verifier::spinoff_prover]
proof fn lemma_rt_board(s: Seq<char>, i: int, w: Seq<char>, b: BoardV, rest: Seq<char>)
    requires
        0 <= i <= s.len(),
        s.subrange(i, s.len() as int) == w + (jv_board(b) + rest),
        forall|k: int| 0 <= k < w.len() ==> is_ws(w[k]),
    ensures
        spec_parse_board(s, i) == Some((b, i + w.len() + jv_board(b).len())),
        s.subrange(i + w.len() + jv_board(b).len(), s.len() as int) == rest,
{
    assert(jv_board(b) =~= jv_board_head(b) + jv_board_tail(b));
    assert(w + (jv_board(b) + rest) =~= w + (jv_board_head(b) + (jv_board_tail(b) + rest)));
    lemma_rt_board_head(s, i, w, b, jv_board_tail(b) + rest);
    let j = i + w.len() + jv_board_head(b).len();
    lemma_rt_board_tail(s, j, b, rest);
    let k = j + jv_board_tail(b).len();
    assert(b == (BoardV {
        id: b.id,
        name: b.name,
        background: b.background,
        notes: b.notes,
        scene_rect: b.scene_rect,
    }));
    assert(spec_parse_board(s, i) == Some((b, k)));
    assert(k == i + w.len() + jv_board(b).len());
}

/// A snapshot's canonical text parses back to the same value.
#[verifier::rlimit(100)]
#[verifier::spinoff_prover]
proof fn lemma_rt_state(s: Seq<char>, i: int, w: Seq<char>, v: StateV, rest: Seq<char>)
    requires
        0 <= i <= s.len(),
        s.subrange(i, s.len() as int) == w + (jv_state(v) + rest),
        forall|k: int| 0 <= k < w.len() ==> is_ws(w[k]),
    ensures
        spec_parse_state(s, i) == Some((v, i + w.len() + jv_state(v).len())),
        s.subrange(i + w.len() + jv_state(v).len(), s.len() as int) == rest,
{
    reveal_strlit("{");
    reveal_strlit("}");
    reveal_strlit(",");
    reveal_strlit(":");
    reveal_strlit("\"board\"");
    reveal_strlit("\"next_note_id\"");
    reveal_strlit("\"board\":");
    reveal_strlit("\"next_note_id\":");
    lemma_nlsp_ws(2);
    lemma_nlsp_ws(0);
    lemma_sp_ws(1);
    let e = Seq::<char>::empty();
    let dboard = jv_board(v.board);
    let did = dec_digits(v.next_note_id as nat);
    let t8 = nlsp(0) + ("}"@ + rest);
    let t7 = did + t8;
    let t6 = ":"@ + (sp(1) + t7);
    let t5 = "\"next_note_id\""@ + t6;
    let t4 = ","@ + (nlsp(2) + t5);
    let t3 = dboard + t4;
    let t2 = ":"@ + (sp(1) + t3);
    let t1 = "\"board\""@ + t2;
    assert("\"board\":"@ =~= "\"board\""@ + ":"@);
    assert("\"next_note_id\":"@ =~= "\"next_note_id\""@ + ":"@);
    assert(jv_state(v) + rest =~= "{"@ + (nlsp(2) + t1));
    lemma_rt_lit(s, i, w, "{"@, nlsp(2) + t1);
    let i1 = i + w.len() + 1;
    lemma_rt_lit(s, i1, nlsp(2), "\"board\""@, t2);
    let i2 = i1 + nlsp(2).len() + 7;
    assert(t2 =~= e + (":"@ + (sp(1) + t3)));
    lemma_rt_lit(s, i2, e, ":"@, sp(1) + t3);
    let i3 = i2 + 1;
    assert(sp(1) + t3 =~= sp(1) + (dboard + t4));
    lemma_rt_board(s, i3, sp(1), v.board, t4);
    let i4 = i3 + 1 + dboard.len();
    assert(t4 =~= e + (","@ + (nlsp(2) + t5)));
    lemma_rt_lit(s, i4, e, ","@, nlsp(2) + t5);
    let i5 = i4 + 1;
    lemma_rt_lit(s, i5, nlsp(2), "\"next_note_id\""@, t6);
    let i6 = i5 + nlsp(2).len() + 14;
    assert(t6 =~= e + (":"@ + (sp(1) + t7)));
    lemma_rt_lit(s, i6, e, ":"@, sp(1) + t7);
    let i7 = i6 + 1;
    assert(sp(1) + t7 =~= sp(1) + (did + t8));
    lemma_rt_u64(s, i7, sp(1), v.next_note_id, t8);
    let i8 = i7 + 1 + did.len();
    lemma_rt_lit(s, i8, nlsp(0), "}"@, rest);
    let i9 = i8 + nlsp(0).len() + 1;
    assert(v == (StateV { board: v.board, next_note_id: v.next_note_id }));
    assert(spec_parse_state(s, i) == Some((v, i9)));
    assert(i9 == i + w.len() + jv_state(v).len());
}

/// The canonical text of a whole snapshot parses back to the same value:
/// the round trip through the snapshot format loses nothing, for every
/// store value.
pub proof fn lemma_snapshot_round_trip(v: StateV)
    ensures
        parse_snapshot(jv_state(v)) == Some(v),
{
    let s = jv_state(v);
    let e = Seq::<char>::empty();
    assert(s.subrange(0, s.len() as int) =~= s);
    assert(s =~= e + (jv_state(v) + e));
    lemma_rt_state(s, 0, e, v, e);
    let j = jv_state(v).len() as int;
    assert(spec_parse_state(s, 0) == Some((v, j)));
    assert(j == s.len());
    assert(skip_ws(s, j) == j);
}


/// Append a single space.
fn push_sp1(out: &mut String)
    ensures
        final(out)@ == old(out)@ + sp(1),
{
    push_char(out, ' ');
    proof {
        assert(old(out)@.push(' ') =~= old(out)@ + sp(1));
    }
}

/// Append the canonical text of a color.
fn push_rgba(out: &mut String, c: Rgba)
    ensures
        final(out)@ == old(out)@ + jv_rgba(c),
{
    out.append("[");
    push_dec_u64(out, c.r as u64);
    out.append(",");
    push_dec_u64(out, c.g as u64);
    out.append(",");
    push_dec_u64(out, c.b as u64);
    out.append(",");
    push_dec_u64(out, c.a as u64);
    out.append("]");
    proof {
        assert(out@ =~= old(out)@ + jv_rgba(c));
    }
}

/// Append the canonical text of a point or extent.
fn push_vec2(out: &mut String, v: Vec2i)
    ensures
        final(out)@ == old(out)@ + jv_vec2(v),
{
    out.append("[");
    push_dec_i64(out, v.x);
    out.append(",");
    push_dec_i64(out, v.y);
    out.append("]");
    proof {
        assert(out@ =~= old(out)@ + jv_vec2(v));
    }
}

/// Append the canonical text of a rectangle.
fn push_rect(out: &mut String, r: Recti)
    ensures
        final(out)@ == old(out)@ + jv_rect(r),
{
    out.append("[");
    push_dec_i64(out, r.min.x);
    out.append(",");
    push_dec_i64(out, r.min.y);
    out.append(",");
    push_dec_i64(out, r.size.x);
    out.append(",");
    push_dec_i64(out, r.size.y);
    out.append("]");
    proof {
        assert(out@ =~= old(out)@ + jv_rect(r));
    }
}

/// Append the canonical text of one note.
#[verifier::rlimit(100)]
#[verifier::spinoff_prover]
fn push_note(out: &mut String, n: &NoteData)
    ensures
        final(out)@ == old(out)@ + jv_note(n@),
{
    out.append("{");
    push_nlsp(out, 8);
    out.append("\"id\":");
    push_sp1(out);
    push_dec_u64(out, n.id);
    out.append(",");
    push_nlsp(out, 8);
    out.append("\"text\":");
    push_sp1(out);
    push_json_str(out, n.text.as_str());
    out.append(",");
    push_nlsp(out, 8);
    out.append("\"pos\":");
    push_sp1(out);
    push_vec2(out, n.pos);
    out.append(",");
    push_nlsp(out, 8);
    out.append("\"size\":");
    push_sp1(out);
    push_vec2(out, n.size);
    out.append(",");
    push_nlsp(out, 8);
    out.append("\"color\":");
    push_sp1(out);
    push_rgba(out, n.color);
    push_nlsp(out, 6);
    out.append("}");
    proof {
        assert(out@ =~= old(out)@ + jv_note(n@));
    }
}

/// Appending one more note to a nonempty run appends a separator and the
/// note's text.
#[verifier::rlimit(100)]
#[verifier::spinoff_prover]
proof fn lemma_items_snoc(notes: Seq<NoteV>, x: NoteV)
    requires
        notes.len() >= 1,
    ensures
        jv_notes_items(notes.push(x)) == jv_notes_items(notes) + (","@ + nlsp(6) + jv_note(x)),
    decreases notes.len(),
{
    let p = notes.push(x);
    if notes.len() == 1 {
        assert(p.drop_first() =~= seq![x]);
        assert(jv_notes_items(p) == jv_note(p[0]) + ","@ + nlsp(6) + jv_notes_items(seq![x]));
        assert(jv_notes_items(seq![x]) == jv_note(x));
        assert(p[0] == notes[0]);
        assert(jv_notes_items(notes) == jv_note(notes[0]));
        assert(jv_note(notes[0]) + ","@ + nlsp(6) + jv_note(x) =~= jv_notes_items(notes) + (","@
            + nlsp(6) + jv_note(x)));
    } else {
        assert(p.drop_first() =~= notes.drop_first().push(x));
        lemma_items_snoc(notes.drop_first(), x);
        assert(jv_notes_items(p) == jv_note(p[0]) + ","@ + nlsp(6) + jv_notes_items(
            p.drop_first(),
        ));
        assert(p[0] == notes[0]);
        assert(jv_notes_items(notes) == jv_note(notes[0]) + ","@ + nlsp(6) + jv_notes_items(
            notes.drop_first(),
        ));
        assert(jv_note(notes[0]) + ","@ + nlsp(6) + (jv_notes_items(notes.drop_first()) + (","@
            + nlsp(6) + jv_note(x))) =~= jv_notes_items(notes) + (","@ + nlsp(6) + jv_note(x)));
    }
}

/// Append the canonical text of the note list.
#[verifier::rlimit(100)]
#[verifier::spinoff_prover]
fn push_notes(out: &mut String, notes: &Vec<NoteData>)
    ensures
        final(out)@ == old(out)@ + jv_notes(notes@.map_values(|n: NoteData| n@)),
{
    let ghost view = notes@.map_values(|n: NoteData| n@);
    if notes.len() == 0 {
        out.append("[]");
        proof {
            assert(view.len() == 0);
            assert(out@ =~= old(out)@ + jv_notes(view));
        }
        return ;
    }
    out.append("[");
    push_nlsp(out, 6);
    push_note(out, &notes[0]);
    proof {
        assert(view.take(1) =~= seq![view[0]]);
        assert(jv_notes_items(view.take(1)) == jv_note(view[0]));
        assert(view[0] == notes@[0]@);
        assert(out@ =~= old(out)@ + "["@ + nlsp(6) + jv_notes_items(view.take(1)));
    }
    let n = notes.len();
    for i in 1..n
        invariant
            n == notes@.len(),
            view == notes@.map_values(|n: NoteData| n@),
            1 <= i <= n,
            out@ =~= old(out)@ + "["@ + nlsp(6) + jv_notes_items(view.take(i as int)),
    {
        out.append(",");
        push_nlsp(out, 6);
        push_note(out, &notes[i]);
        proof {
            assert(view.take(i as int).push(view[i as int]) =~= view.take(i + 1));
            lemma_items_snoc(view.take(i as int), view[i as int]);
            assert(view[i as int] == notes@[i as int]@);
            assert(out@ =~= old(out)@ + "["@ + nlsp(6) + jv_notes_items(view.take(i + 1)));
        }
    }
    push_nlsp(out, 4);
    out.append("]");
    proof {
        assert(view.take(n as int) =~= view);
        assert(out@ =~= old(out)@ + jv_notes(view));
    }
}

/// A board's canonical text is its head followed by its tail.
#[verifier::rlimit(100)]
#[verifier::spinoff_prover]
proof fn lemma_board_split(b: BoardV)
    ensures
        jv_board(b) == jv_board_head(b) + jv_board_tail(b),
{
    assert(jv_board(b) =~= jv_board_head(b) + jv_board_tail(b));
}

/// Append the canonical text of the board.
#[verifier::rlimit(100)]
#[verifier::spinoff_prover]
fn push_board(out: &mut String, b: &Board)
    ensures
        final(out)@ == old(out)@ + jv_board(b@),
{
    out.append("{");
    push_nlsp(out, 4);
    out.append("\"id\":");
    push_sp1(out);
    push_dec_u64(out, b.id);
    out.append(",");
    push_nlsp(out, 4);
    out.append("\"name\":");
    push_sp1(out);
    push_json_str(out, b.name.as_str());
    out.append(",");
    push_nlsp(out, 4);
    out.append("\"background\":");
    push_sp1(out);
    push_rgba(out, b.background);
    proof {
        assert(out@ =~= old(out)@ + jv_board_head(b@));
    }
    let ghost mid = out@;
    out.append(",");
    push_nlsp(out, 4);
    out.append("\"notes\":");
    push_sp1(out);
    push_notes(out, &b.notes);
    out.append(",");
    push_nlsp(out, 4);
    out.append("\"scene_rect\":");
    push_sp1(out);
    push_rect(out, b.scene_rect);
    push_nlsp(out, 2);
    out.append("}");
    proof {
        assert(out@ =~= mid + jv_board_tail(b@));
        lemma_board_split(b@);
        assert(out@ =~= old(out)@ + jv_board(b@));
    }
}

/// Append the canonical text of the whole snapshot.
#[verifier::rlimit(100)]
#[verifier::spinoff_prover]
fn push_state(out: &mut String, st: &AppState)
    ensures
        final(out)@ == old(out)@ + jv_state(st@),
{
    out.append("{");
    push_nlsp(out, 2);
    out.append("\"board\":");
    push_sp1(out);
    push_board(out, &st.board);
    out.append(",");
    push_nlsp(out, 2);
    out.append("\"next_note_id\":");
    push_sp1(out);
    push_dec_u64(out, st.next_note_id);
    push_nlsp(out, 0);
    out.append("}");
    proof {
        assert(out@ =~= old(out)@ + jv_state(st@));
    }
}

impl AppState {
    /// Serialize the store to its canonical snapshot text.
    pub fn to_json(&self) -> (r: String)
        ensures
            r@ == jv_state(self@),
    {
        let mut out = String::new();
        push_state(&mut out, self);
        proof {
            assert(Seq::<char>::empty() + jv_state(self@) =~= jv_state(self@));
        }
        out
    }
}


/// Parse a color.
fn parse_rgba_x(s: &Vec<char>, i: usize) -> (res: Option<(Rgba, usize)>)
    requires
        i <= s@.len(),
    ensures
        match res {
            Some(p) => spec_parse_rgba(s@, i as int) == Some((p.0, p.1 as int)) && p.1
                <= s@.len(),
            None => spec_parse_rgba(s@, i as int) is None,
        },
{
    let i1 = match expect(s, i, "[") {
        Some(j) => j,
        None => {
            return None;
        },
    };
    let (r, i2) = match parse_u64_x(s, i1) {
        Some(p) => p,
        None => {
            return None;
        },
    };
    if r > 255 {
        return None;
    }
    let i3 = match expect(s, i2, ",") {
        Some(j) => j,
        None => {
            return None;
        },
    };
    let (g, i4) = match parse_u64_x(s, i3) {
        Some(p) => p,
        None => {
            return None;
        },
    };
    if g > 255 {
        return None;
    }
    let i5 = match expect(s, i4, ",") {
        Some(j) => j,
        None => {
            return None;
        },
    };
    let (b, i6) = match parse_u64_x(s, i5) {
        Some(p) => p,
        None => {
            return None;
        },
    };
    if b > 255 {
        return None;
    }
    let i7 = match expect(s, i6, ",") {
        Some(j) => j,
        None => {
            return None;
        },
    };
    let (a, i8) = match parse_u64_x(s, i7) {
        Some(p) => p,
        None => {
            return None;
        },
    };
    if a > 255 {
        return None;
    }
    let i9 = match expect(s, i8, "]") {
        Some(j) => j,
        None => {
            return None;
        },
    };
    Some((Rgba { r: r as u8, g: g as u8, b: b as u8, a: a as u8 }, i9))
}

/// Parse a point or extent.
fn parse_vec2_x(s: &Vec<char>, i: usize) -> (res: Option<(Vec2i, usize)>)
    requires
        i <= s@.len(),
    ensures
        match res {
            Some(p) => spec_parse_vec2(s@, i as int) == Some((p.0, p.1 as int)) && p.1
                <= s@.len(),
            None => spec_parse_vec2(s@, i as int) is None,
        },
{
    let i1 = match expect(s, i, "[") {
        Some(j) => j,
        None => {
            return None;
        },
    };
    let (x, i2) = match parse_i64_x(s, i1) {
        Some(p) => p,
        None => {
            return None;
        },
    };
    let i3 = match expect(s, i2, ",") {
        Some(j) => j,
        None => {
            return None;
        },
    };
    let (y, i4) = match parse_i64_x(s, i3) {
        Some(p) => p,
        None => {
            return None;
        },
    };
    let i5 = match expect(s, i4, "]") {
        Some(j) => j,
        None => {
            return None;
        },
    };
    Some((Vec2i { x, y }, i5))
}

/// Parse a rectangle.
fn parse_rect_x(s: &Vec<char>, i: usize) -> (res: Option<(Recti, usize)>)
    requires
        i <= s@.len(),
    ensures
        match res {
            Some(p) => spec_parse_rect(s@, i as int) == Some((p.0, p.1 as int)) && p.1
                <= s@.len(),
            None => spec_parse_rect(s@, i as int) is None,
        },
{
    let i1 = match expect(s, i, "[") {
        Some(j) => j,
        None => {
            return None;
        },
    };
    let (x, i2) = match parse_i64_x(s, i1) {
        Some(p) => p,
        None => {
            return None;
        },
    };
    let i3 = match expect(s, i2, ",") {
        Some(j) => j,
        None => {
            return None;
        },
    };
    let (y, i4) = match parse_i64_x(s, i3) {
        Some(p) => p,
        None => {
            return None;
        },
    };
    let i5 = match expect(s, i4, ",") {
        Some(j) => j,
        None => {
            return None;
        },
    };
    let (w, i6) = match parse_i64_x(s, i5) {
        Some(p) => p,
        None => {
            return None;
        },
    };
    let i7 = match expect(s, i6, ",") {
        Some(j) => j,
        None => {
            return None;
        },
    };
    let (h, i8) = match parse_i64_x(s, i7) {
        Some(p) => p,
        None => {
            return None;
        },
    };
    let i9 = match expect(s, i8, "]") {
        Some(j) => j,
        None => {
            return None;
        },
    };
    Some((Recti { min: Vec2i { x, y }, size: Vec2i { x: w, y: h } }, i9))
}

/// Parse one note object.
#[verifier::rlimit(100)]
#[verifier::spinoff_prover]
fn parse_note_x(s: &Vec<char>, i: usize) -> (res: Option<(NoteData, usize)>)
    requires
        i <= s@.len(),
    ensures
        match res {
            Some(p) => spec_parse_note(s@, i as int) == Some((p.0@, p.1 as int)) && p.1
                <= s@.len(),
            None => spec_parse_note(s@, i as int) is None,
        },
{
    let i1 = match expect(s, i, "{") {
        Some(j) => j,
        None => {
            return None;
        },
    };
    let i2 = match expect(s, i1, "\"id\"") {
        Some(j) => j,
        None => {
            return None;
        },
    };
    let i3 = match expect(s, i2, ":") {
        Some(j) => j,
        None => {
            return None;
        },
    };
    let (id, i4) = match parse_u64_x(s, i3) {
        Some(p) => p,
        None => {
            return None;
        },
    };
    let i5 = match expect(s, i4, ",") {
        Some(j) => j,
        None => {
            return None;
        },
    };
    let i6 = match expect(s, i5, "\"text\"") {
        Some(j) => j,
        None => {
            return None;
        },
    };
    let i7 = match expect(s, i6, ":") {
        Some(j) => j,
        None => {
            return None;
        },
    };
    let (text_chars, i8) = match parse_string_x(s, i7) {
        Some(p) => p,
        None => {
            return None;
        },
    };
    let i9 = match expect(s, i8, ",") {
        Some(j) => j,
        None => {
            return None;
        },
    };
    let i10 = match expect(s, i9, "\"pos\"") {
        Some(j) => j,
        None => {
            return None;
        },
    };
    let i11 = match expect(s, i10, ":") {
        Some(j) => j,
        None => {
            return None;
        },
    };
    let (pos, i12) = match parse_vec2_x(s, i11) {
        Some(p) => p,
        None => {
            return None;
        },
    };
    let i13 = match expect(s, i12, ",") {
        Some(j) => j,
        None => {
            return None;
        },
    };
    let i14 = match expect(s, i13, "\"size\"") {
        Some(j) => j,
        None => {
            return None;
        },
    };
    let i15 = match expect(s, i14, ":") {
        Some(j) => j,
        None => {
            return None;
        },
    };
    let (size, i16) = match parse_vec2_x(s, i15) {
        Some(p) => p,
        None => {
            return None;
        },
    };
    let i17 = match expect(s, i16, ",") {
        Some(j) => j,
        None => {
            return None;
        },
    };
    let i18 = match expect(s, i17, "\"color\"") {
        Some(j) => j,
        None => {
            return None;
        },
    };
    let i19 = match expect(s, i18, ":") {
        Some(j) => j,
        None => {
            return None;
        },
    };
    let (color, i20) = match parse_rgba_x(s, i19) {
        Some(p) => p,
        None => {
            return None;
        },
    };
    let i21 = match expect(s, i20, "}") {
        Some(j) => j,
        None => {
            return None;
        },
    };
    let text = crate::jsontext::chars_to_string(&text_chars);
    let note = NoteData { id, text, pos, size, color };
    proof {
        assert(note@ == NoteV { id, text: text_chars@, pos, size, color });
    }
    Some((note, i21))
}


/// Parse the note list.
#[verifier::rlimit(100)]
#[verifier::spinoff_prover]
fn parse_notes_x(s: &Vec<char>, i: usize) -> (res: Option<(Vec<NoteData>, usize)>)
    requires
        i <= s@.len(),
    ensures
        match res {
            Some(p) => spec_parse_notes(s@, i as int) == Some(
                (p.0@.map_values(|n: NoteData| n@), p.1 as int),
            ) && p.1 <= s@.len(),
            None => spec_parse_notes(s@, i as int) is None,
        },
{
    let i1 = match expect(s, i, "[") {
        Some(j) => j,
        None => {
            return None;
        },
    };
    match expect(s, i1, "]") {
        Some(i2) => {
            let empty_notes: Vec<NoteData> = Vec::new();
            proof {
                assert(empty_notes@.map_values(|n: NoteData| n@) =~= Seq::<NoteV>::empty());
            }
            return Some((empty_notes, i2));
        },
        None => {},
    }
    let mut acc: Vec<NoteData> = Vec::new();
    let mut p = i1;
    loop
        invariant
            i <= s@.len(),
            p <= s@.len(),
            spec_parse_notes(s@, i as int) == (match spec_parse_notes_more(s@, p as int) {
                Some(q) => Some((acc@.map_values(|n: NoteData| n@) + q.0, q.1)),
                None => None::<(Seq<NoteV>, int)>,
            }),
        decreases s@.len() - p,
    {
        let (note, j) = match parse_note_x(s, p) {
            Some(x) => x,
            None => {
                return None;
            },
        };
        if j <= p {
            return None;
        }
        match expect(s, j, ",") {
            Some(k) => {
                if k <= j {
                    return None;
                }
                acc.push(note);
                proof {
                    let prevmap = acc@.drop_last().map_values(|n: NoteData| n@);
                    let accmap = acc@.map_values(|n: NoteData| n@);
                    assert(accmap =~= prevmap.push(note@));
                    if spec_parse_notes_more(s@, k as int) is Some {
                        let q = spec_parse_notes_more(s@, k as int)->Some_0;
                        assert(spec_parse_notes_more(s@, p as int) == Some(
                            (seq![note@] + q.0, q.1),
                        ));
                        assert(prevmap + (seq![note@] + q.0) =~= accmap + q.0);
                    } else {
                        assert(spec_parse_notes_more(s@, p as int) is None);
                    }
                }
                p = k;
            },
            None => {
                match expect(s, j, "]") {
                    Some(k) => {
                        acc.push(note);
                        proof {
                            let prevmap = acc@.drop_last().map_values(|n: NoteData| n@);
                            let accmap = acc@.map_values(|n: NoteData| n@);
                            assert(accmap =~= prevmap.push(note@));
                            assert(spec_parse_notes_more(s@, p as int) == Some(
                                (seq![note@], k as int),
                            ));
                            assert(prevmap + seq![note@] =~= accmap);
                        }
                        return Some((acc, k));
                    },
                    None => {
                        return None;
                    },
                }
            },
        }
    }
}

/// Parse the board object.
#[verifier::rlimit(100)]
#[verifier::spinoff_prover]
fn parse_board_x(s: &Vec<char>, i: usize) -> (res: Option<(Board, usize)>)
    requires
        i <= s@.len(),
    ensures
        match res {
            Some(p) => spec_parse_board(s@, i as int) == Some((p.0@, p.1 as int)) && p.1
                <= s@.len(),
            None => spec_parse_board(s@, i as int) is None,
        },
{
    let i1 = match expect(s, i, "{") {
        Some(j) => j,
        None => {
            return None;
        },
    };
    let i2 = match expect(s, i1, "\"id\"") {
        Some(j) => j,
        None => {
            return None;
        },
    };
    let i3 = match expect(s, i2, ":") {
        Some(j) => j,
        None => {
            return None;
        },
    };
    let (id, i4) = match parse_u64_x(s, i3) {
        Some(p) => p,
        None => {
            return None;
        },
    };
    let i5 = match expect(s, i4, ",") {
        Some(j) => j,
        None => {
            return None;
        },
    };
    let i6 = match expect(s, i5, "\"name\"") {
        Some(j) => j,
        None => {
            return None;
        },
    };
    let i7 = match expect(s, i6, ":") {
        Some(j) => j,
        None => {
            return None;
        },
    };
    let (name_chars, i8) = match parse_string_x(s, i7) {
        Some(p) => p,
        None => {
            return None;
        },
    };
    let i9 = match expect(s, i8, ",") {
        Some(j) => j,
        None => {
            return None;
        },
    };
    let i10 = match expect(s, i9, "\"background\"") {
        Some(j) => j,
        None => {
            return None;
        },
    };
    let i11 = match expect(s, i10, ":") {
        Some(j) => j,
        None => {
            return None;
        },
    };
    let (background, i12) = match parse_rgba_x(s, i11) {
        Some(p) => p,
        None => {
            return None;
        },
    };
    proof {
        assert(spec_parse_board_head(s@, i as int) == Some(
            ((id, name_chars@, background), i12 as int),
        ));
    }
    let i13 = match expect(s, i12, ",") {
        Some(j) => j,
        None => {
            return None;
        },
    };
    let i14 = match expect(s, i13, "\"notes\"") {
        Some(j) => j,
        None => {
            return None;
        },
    };
    let i15 = match expect(s, i14, ":") {
        Some(j) => j,
        None => {
            return None;
        },
    };
    let (notes, i16) = match parse_notes_x(s, i15) {
        Some(p) => p,
        None => {
            return None;
        },
    };
    let i17 = match expect(s, i16, ",") {
        Some(j) => j,
        None => {
            return None;
        },
    };
    let i18 = match expect(s, i17, "\"scene_rect\"") {
        Some(j) => j,
        None => {
            return None;
        },
    };
    let i19 = match expect(s, i18, ":") {
        Some(j) => j,
        None => {
            return None;
        },
    };
    let (scene_rect, i20) = match parse_rect_x(s, i19) {
        Some(p) => p,
        None => {
            return None;
        },
    };
    let i21 = match expect(s, i20, "}") {
        Some(j) => j,
        None => {
            return None;
        },
    };
    let name = crate::jsontext::chars_to_string(&name_chars);
    let board = Board { id, name, background, notes, scene_rect };
    proof {
        assert(spec_parse_board_tail(s@, i12 as int) == Some(
            ((board@.notes, scene_rect), i21 as int),
        ));
        assert(board@ == BoardV {
            id,
            name: name_chars@,
            background,
            notes: board@.notes,
            scene_rect,
        });
    }
    Some((board, i21))
}

/// Parse the root object.
#[verifier::rlimit(100)]
#[verifier::spinoff_prover]
fn parse_state_x(s: &Vec<char>, i: usize) -> (res: Option<(AppState, usize)>)
    requires
        i <= s@.len(),
    ensures
        match res {
            Some(p) => spec_parse_state(s@, i as int) == Some((p.0@, p.1 as int)) && p.1
                <= s@.len(),
            None => spec_parse_state(s@, i as int) is None,
        },
{
    let i1 = match expect(s, i, "{") {
        Some(j) => j,
        None => {
            return None;
        },
    };
    let i2 = match expect(s, i1, "\"board\"") {
        Some(j) => j,
        None => {
            return None;
        },
    };
    let i3 = match expect(s, i2, ":") {
        Some(j) => j,
        None => {
            return None;
        },
    };
    let (board, i4) = match parse_board_x(s, i3) {
        Some(p) => p,
        None => {
            return None;
        },
    };
    let i5 = match expect(s, i4, ",") {
        Some(j) => j,
        None => {
            return None;
        },
    };
    let i6 = match expect(s, i5, "\"next_note_id\"") {
        Some(j) => j,
        None => {
            return None;
        },
    };
    let i7 = match expect(s, i6, ":") {
        Some(j) => j,
        None => {
            return None;
        },
    };
    let (next_note_id, i8) = match parse_u64_x(s, i7) {
        Some(p) => p,
        None => {
            return None;
        },
    };
    let i9 = match expect(s, i8, "}") {
        Some(j) => j,
        None => {
            return None;
        },
    };
    Some((AppState { board, next_note_id }, i9))
}

impl AppState {
    /// Read a snapshot text. A text the canonical renderer produced comes
    /// back as the exact store it rendered; any malformed text yields the
    /// default store instead.
    pub fn from_json(s: &str) -> (r: AppState)
        ensures
            match parse_snapshot(s@) {
                Some(v) => r@ == v,
                None => r@ == crate::store::spec_default_state(),
            },
    {
        let chars = str_chars(s);
        match parse_state_x(&chars, 0) {
            Some((st, j)) => {
                let k = skip_ws_x(&chars, j);
                if k == chars.len() {
                    st
                } else {
                    AppState::default()
                }
            },
            None => AppState::default(),
        }
    }

    /// The load step applied to what was read from disk: no file at all, or
    /// any unreadable content, falls back to the default store.
    pub fn load_from_content(content: Option<&str>) -> (r: AppState)
        ensures
            match content {
                Some(s) => match parse_snapshot(s@) {
                    Some(v) => r@ == v,
                    None => r@ == crate::store::spec_default_state(),
                },
                None => r@ == crate::store::spec_default_state(),
            },
    {
        match content {
            Some(s) => AppState::from_json(s),
            None => AppState::default(),
        }
    }
}

} // verus!
