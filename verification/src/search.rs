//! Case-insensitive text search over the board's notes: which notes match a
//! query, stepping through the matches, re-centering the view on the
//! current match, and the highlighted spans inside a matching text.
//!
//! Matching folds both the query and each note's text to lowercase and
//! looks for the folded query as a contiguous run inside the folded text.

use crate::store::{focus_result, AppState, NoteData, NoteV};
use vstd::prelude::*;

verus! {

/// What `str::to_lowercase` returns for a text with these characters.
pub uninterp spec fn lower_of(s: Seq<char>) -> Seq<char>;

/// Relies on str::to_lowercase: the lowercase equivalent of the text,
/// depending on its characters alone.
#[verifier::external_body]
fn to_lower(s: &str) -> (r: String)
    ensures
        r@ == lower_of(s@),
{
    s.to_lowercase()
}

/// `q` occurs in `t` starting at position `i`.
pub open spec fn match_at(t: Seq<char>, q: Seq<char>, i: int) -> bool {
    0 <= i && i + q.len() <= t.len() && t.subrange(i, i + q.len() as int) == q
}

/// `q` occurs somewhere in `t`.
pub open spec fn contains_seq(t: Seq<char>, q: Seq<char>) -> bool {
    exists|i: int| match_at(t, q, i)
}

/// First position at or after `from` where `q` occurs in `t`, or `-1`.
pub open spec fn spec_find_from(t: Seq<char>, q: Seq<char>, from: int) -> int
    decreases t.len() - from
        when 0 <= from
{
    if from + q.len() > t.len() {
        -1
    } else if q.len() == 0 {
        from
    } else if t.subrange(from, from + q.len() as int) == q {
        from
    } else {
        spec_find_from(t, q, from + 1)
    }
}

/// `spec_find_from` finds the first occurrence at or after `from`, and is
/// negative exactly when there is none.
pub proof fn lemma_find_from(t: Seq<char>, q: Seq<char>, from: int)
    requires
        0 <= from,
    ensures
        spec_find_from(t, q, from) >= 0 ==> {
            let r = spec_find_from(t, q, from);
            &&& from <= r
            &&& match_at(t, q, r)
            &&& forall|k: int| from <= k < r ==> !match_at(t, q, k)
        },
        spec_find_from(t, q, from) < 0 ==> forall|k: int| from <= k ==> !match_at(t, q, k),
    decreases t.len() - from,
{
    if from + q.len() > t.len() {
        assert forall|k: int| from <= k implies !match_at(t, q, k) by {}
    } else if q.len() == 0 {
        assert(t.subrange(from, from + q.len() as int) =~= q);
    } else if t.subrange(from, from + q.len() as int) == q {
    } else {
        lemma_find_from(t, q, from + 1);
    }
}

/// Whether `q` occurs in `t` starting exactly at `i`.
fn match_at_x(t: &Vec<char>, q: &Vec<char>, i: usize) -> (r: bool)
    requires
        i + q@.len() <= t@.len(),
    ensures
        r == (t@.subrange(i as int, i + q@.len()) == q@),
{
    let n = q.len();
    let tlen = t.len();
    for k in 0..n
        invariant
            n == q@.len(),
            tlen == t@.len(),
            i + n <= tlen,
            forall|m: int| 0 <= m < k ==> t@[i + m] == q@[m],
    {
        if t[i + k] != q[k] {
            proof {
                assert(t@.subrange(i as int, i + q@.len())[k as int] == t@[i + k]);
            }
            return false;
        }
    }
    proof {
        assert forall|m: int|
            0 <= m < n implies #[trigger] t@.subrange(i as int, i + q@.len())[m] == q@[m] by {
            assert(t@.subrange(i as int, i + q@.len())[m] == t@[i + m]);
        }
        assert(t@.subrange(i as int, i + q@.len()) =~= q@);
    }
    true
}

/// Find the first occurrence of `q` in `t` at or after `from`.
fn find_from(t: &Vec<char>, q: &Vec<char>, from: usize) -> (r: Option<usize>)
    ensures
        match r {
            Some(j) => spec_find_from(t@, q@, from as int) == j && from <= j && j + q@.len()
                <= t@.len(),
            None => spec_find_from(t@, q@, from as int) == -1,
        },
{
    let mut i = from;
    loop
        invariant
            from <= i,
            spec_find_from(t@, q@, from as int) == spec_find_from(t@, q@, i as int),
        decreases t@.len() + 1 - i,
    {
        if i > t.len() {
            return None;
        }
        if q.len() == 0 {
            proof {
                assert(t@.subrange(i as int, i as int) =~= q@);
            }
            return Some(i);
        }
        if q.len() > t.len() - i {
            return None;
        }
        if match_at_x(t, q, i) {
            return Some(i);
        }
        i = i + 1;
    }
}

/// Whether `q` occurs anywhere in `t`.
fn contains_x(t: &Vec<char>, q: &Vec<char>) -> (r: bool)
    ensures
        r == contains_seq(t@, q@),
{
    proof {
        lemma_find_from(t@, q@, 0);
    }
    match find_from(t, q, 0) {
        Some(_) => true,
        None => {
            proof {
                assert forall|i: int| !match_at(t@, q@, i) by {
                    if i >= 0 {
                        assert(!match_at(t@, q@, i));
                    }
                }
            }
            false
        },
    }
}

/// The identifiers of the notes whose folded text contains `ql`, in board
/// order.
pub open spec fn matched_ids(notes: Seq<NoteV>, ql: Seq<char>) -> Seq<u64>
    decreases notes.len(),
{
    if notes.len() == 0 {
        Seq::empty()
    } else {
        matched_ids(notes.drop_last(), ql) + (if contains_seq(lower_of(notes.last().text), ql) {
            seq![notes.last().id]
        } else {
            Seq::empty()
        })
    }
}

/// The search pane's state: the query, the identifiers of the notes that
/// match it, and which match is current.
pub struct SearchState {
    pub query: String,
    pub matches: Vec<u64>,
    pub current: usize,
}

impl Default for SearchState {
    /// An empty query with no matches.
    fn default() -> (s: SearchState)
        ensures
            s.query@ == Seq::<char>::empty(),
            s.matches@ == Seq::<u64>::empty(),
            s.current == 0,
    {
        SearchState { query: String::new(), matches: Vec::new(), current: 0 }
    }
}

impl SearchState {
    /// The identifier of the current match, if the position is in range.
    pub fn current_match(&self) -> (r: Option<u64>)
        ensures
            r == if self.current < self.matches@.len() {
                Some(self.matches@[self.current as int])
            } else {
                None::<u64>
            },
    {
        if self.current < self.matches.len() {
            Some(self.matches[self.current])
        } else {
            None
        }
    }

    /// Step to the next match, wrapping around at the end. With no matches
    /// nothing changes.
    pub fn next_match(&mut self)
        ensures
            final(self).query == old(self).query,
            final(self).matches == old(self).matches,
            old(self).matches@.len() == 0 ==> final(self).current == old(self).current,
            old(self).matches@.len() > 0 ==> final(self).current as int == if old(self).current
                < old(self).matches@.len() - 1 {
                old(self).current + 1
            } else {
                0
            },
    {
        if self.matches.len() > 0 {
            if self.current < self.matches.len() - 1 {
                self.current = self.current + 1;
            } else {
                self.current = 0;
            }
        }
    }

    /// Step to the previous match, wrapping around at the start. With no
    /// matches nothing changes.
    pub fn prev_match(&mut self)
        ensures
            final(self).query == old(self).query,
            final(self).matches == old(self).matches,
            old(self).matches@.len() == 0 ==> final(self).current == old(self).current,
            old(self).matches@.len() > 0 ==> final(self).current as int == if old(self).current
                == 0 {
                old(self).matches@.len() - 1
            } else {
                old(self).current - 1
            },
    {
        if self.matches.len() > 0 {
            if self.current == 0 {
                self.current = self.matches.len() - 1;
            } else {
                self.current = self.current - 1;
            }
        }
    }
}

/// Recompute the matches for the current query: with an empty query the
/// matches are cleared and the position is left alone; otherwise the
/// matches are the notes whose folded text contains the folded query, and
/// the position returns to the first match.
pub fn update_search(state: &AppState, search: &mut SearchState)
    ensures
        final(search).query == old(search).query,
        old(search).query@.len() == 0 ==> final(search).matches@ == Seq::<u64>::empty()
            && final(search).current == old(search).current,
        old(search).query@.len() > 0 ==> final(search).matches@ == matched_ids(
            state@.board.notes,
            lower_of(old(search).query@),
        ) && final(search).current == 0,
{
    search.matches.clear();
    if search.query.as_str().is_empty() {
        return ;
    }
    let q = to_lower(search.query.as_str());
    let qv = crate::jsontext::str_chars(q.as_str());
    let ghost ql = lower_of(old(search).query@);
    let ghost notes_v = state@.board.notes;
    let n = state.board.notes.len();
    for i in 0..n
        invariant
            n == state.board.notes@.len(),
            notes_v == state@.board.notes,
            qv@ == ql,
            search.query == old(search).query,
            search.matches@ == matched_ids(notes_v.take(i as int), ql),
    {
        let tl = to_lower(state.board.notes[i].text.as_str());
        let tv = crate::jsontext::str_chars(tl.as_str());
        proof {
            assert(notes_v[i as int] == state.board.notes@.map_values(|n: NoteData| n@)[i as int]);
        }
        if contains_x(&tv, &qv) {
            search.matches.push(state.board.notes[i].id);
        }
        proof {
            assert(notes_v.take(i + 1).drop_last() =~= notes_v.take(i as int));
            assert(notes_v.take(i + 1).last() == notes_v[i as int]);
            assert(search.matches@ =~= matched_ids(notes_v.take(i + 1), ql));
        }
    }
    proof {
        assert(notes_v.take(n as int) =~= notes_v);
    }
    search.current = 0;
}

/// Re-center the board's viewport on the current match, if there is one.
pub fn focus_on_match(state: &mut AppState, search: &SearchState)
    ensures
        final(state)@.next_note_id == old(state)@.next_note_id,
        search.current < search.matches@.len() ==> final(state)@.board == focus_result(
            old(state)@.board,
            search.matches@[search.current as int],
        ),
        search.current >= search.matches@.len() ==> final(state)@ == old(state)@,
{
    match search.current_match() {
        Some(id) => {
            state.board.focus_on_note(id);
        },
        None => {},
    }
}

/// The spans where `q` occurs in `t`, found left to right, each search
/// resuming just after the previous find.
pub open spec fn greedy_ranges(t: Seq<char>, q: Seq<char>, i: int) -> Seq<(int, int)>
    decreases t.len() - i
        when 0 <= i && q.len() > 0
{
    let j = spec_find_from(t, q, i);
    if j < i || j + q.len() > t.len() {
        Seq::empty()
    } else {
        seq![(j, j + q.len() as int)] + greedy_ranges(t, q, j + q.len() as int)
    }
}

/// The highlighted spans of a note's text for a query: the places where
/// the folded query occurs in the folded text, left to right and without
/// overlap, as index pairs into the folded text. A query that folds to
/// nothing highlights nothing.
pub fn highlight_ranges(text: &str, query: &str) -> (r: Vec<(usize, usize)>)
    ensures
        lower_of(query@).len() == 0 ==> r@.len() == 0,
        lower_of(query@).len() > 0 ==> r@.map_values(
            |p: (usize, usize)| (p.0 as int, p.1 as int),
        ) == greedy_ranges(lower_of(text@), lower_of(query@), 0),
{
    let tl = to_lower(text);
    let ql = to_lower(query);
    let tv = crate::jsontext::str_chars(tl.as_str());
    let qv = crate::jsontext::str_chars(ql.as_str());
    let mut out: Vec<(usize, usize)> = Vec::new();
    if qv.len() == 0 {
        return out;
    }
    let tlen = tv.len();
    let mut i: usize = 0;
    loop
        invariant
            qv@.len() > 0,
            tlen == tv@.len(),
            tv@ == lower_of(text@),
            qv@ == lower_of(query@),
            greedy_ranges(tv@, qv@, 0) == out@.map_values(
                |p: (usize, usize)| (p.0 as int, p.1 as int),
            ) + greedy_ranges(tv@, qv@, i as int),
        decreases tv@.len() + 1 - i,
    {
        match find_from(&tv, &qv, i) {
            Some(j) => {
                let e = j + qv.len();
                out.push((j, e));
                proof {
                    let prevmap = out@.drop_last().map_values(
                        |p: (usize, usize)| (p.0 as int, p.1 as int),
                    );
                    let outmap = out@.map_values(|p: (usize, usize)| (p.0 as int, p.1 as int));
                    assert(outmap =~= prevmap.push((j as int, e as int)));
                    assert(greedy_ranges(tv@, qv@, i as int) == seq![(j as int, e as int)]
                        + greedy_ranges(tv@, qv@, e as int));
                    assert(prevmap + (seq![(j as int, e as int)] + greedy_ranges(
                        tv@,
                        qv@,
                        e as int,
                    )) =~= outmap + greedy_ranges(tv@, qv@, e as int));
                }
                i = e;
            },
            None => {
                proof {
                    assert(greedy_ranges(tv@, qv@, i as int) =~= Seq::<(int, int)>::empty());
                    assert(out@.map_values(|p: (usize, usize)| (p.0 as int, p.1 as int))
                        + Seq::<(int, int)>::empty() =~= out@.map_values(
                        |p: (usize, usize)| (p.0 as int, p.1 as int),
                    ));
                }
                return out;
            },
        }
    }
}

} // verus!
