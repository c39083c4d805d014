//! Session-wide laws of overwrite mode, stated over the single-cursor
//! model and proved once and for all: the round trip of keystrokes and
//! undo motions, the first-write-wins guarantee of the tracker, and the
//! insertion behaviour of newlines and of the end of the text.

use vstd::prelude::*;

use crate::applier::{fwd_tracker, is_insertion_at, undo_buffer, undo_cursor, undo_tracker};
use crate::session::{
    lemma_keystroke_model, lemma_model_tracker_shape, lemma_overwrites_bounds,
    lemma_undo_model, model_buffer, model_tracker, overwrites_after, step_recorded,
};
use crate::tracker::{
    RecordModel, find_record, has_record, lemma_find_record, ranges_overlap, record_model,
    shift_model, shift_record, tracker_disjoint, tracker_units,
};

verus! {

/// One whole session state: the text, the tracker, and the cursor.
pub type SessionState = (Seq<char>, Seq<RecordModel>, int);

/// One undo motion, as a transformation of a session state.
pub open spec fn undo_state(st: SessionState) -> SessionState {
    (undo_buffer(st.1, st.0, st.2), undo_tracker(st.1, st.2), undo_cursor(st.2))
}

/// `n` undo motions in a row.
pub open spec fn undo_states(st: SessionState, n: nat) -> SessionState
    decreases n,
{
    if n == 0 {
        st
    } else {
        undo_states(undo_state(st), (n - 1) as nat)
    }
}

/// The model state of a session that typed `xs` from origin `c0` into
/// snapshot `s`.
pub open spec fn session_state(s: Seq<char>, c0: int, xs: Seq<char>) -> SessionState {
    (model_buffer(s, c0, xs), model_tracker(s, c0, xs), c0 + xs.len())
}

/// Round trip: however many keystrokes a session has taken — whatever mix
/// of replacements, end-of-line insertions and newlines — that many undo
/// motions return the text, the tracker and the cursor exactly to their
/// state at mode entry.
pub proof fn round_trip(s: Seq<char>, c0: int, xs: Seq<char>)
    requires
        0 <= c0 <= s.len(),
    ensures
        undo_states(session_state(s, c0, xs), xs.len()) == (
            s,
            Seq::<RecordModel>::empty(),
            c0,
        ),
    decreases xs.len(),
{
    if xs.len() == 0 {
        assert(model_buffer(s, c0, xs) =~= s);
        assert(model_tracker(s, c0, xs) =~= Seq::<RecordModel>::empty());
    } else {
        let prev = xs.drop_last();
        assert(prev.push(xs.last()) =~= xs);
        lemma_undo_model(s, c0, prev, xs.last());
        assert(undo_state(session_state(s, c0, xs)) == session_state(s, c0, prev));
        round_trip(s, c0, prev);
    }
}

/// Undoing reverses the last keystroke: from the state after any history
/// `xs` followed by one keystroke `ch`, one undo motion finds that
/// keystroke's record and lands exactly on the state after `xs` alone.
pub proof fn undo_reverses_keystroke(s: Seq<char>, c0: int, xs: Seq<char>, ch: char)
    requires
        0 <= c0 <= s.len(),
    ensures
        undo_state(session_state(s, c0, xs.push(ch))) == session_state(s, c0, xs),
{
    lemma_undo_model(s, c0, xs, ch);
}

/// Idempotent record: recording a range that is already tracked is a
/// no-op, so overwriting one position a second time in the same session
/// keeps the original character of the first overwrite for restoration,
/// not the intermediate one.
pub proof fn record_keeps_first(
    t: Seq<RecordModel>,
    s: int,
    e: int,
    first: Seq<char>,
    second: Seq<char>,
)
    ensures
        record_model(record_model(t, s, e, first), s, e, second) == record_model(
            t,
            s,
            e,
            first,
        ),
{
    if !has_record(t, s, e) {
        let t1 = t.push((s, e, first));
        lemma_find_record(t1, s, e);
        if !has_record(t1, s, e) {
            assert(t1[t.len() as int].0 == s && t1[t.len() as int].1 == e);
            assert(false);
        }
    }
}

/// The mapping invariant: in every session state the tracker's ranges
/// are pairwise non-overlapping — each keystroke's record covers exactly
/// the one position it wrote.
pub proof fn tracker_never_overlaps(s: Seq<char>, c0: int, xs: Seq<char>)
    ensures
        tracker_units(model_tracker(s, c0, xs)),
        tracker_disjoint(model_tracker(s, c0, xs)),
{
    lemma_model_tracker_shape(s, c0, xs);
    let t = model_tracker(s, c0, xs);
    assert forall|i: int, j: int|
        0 <= i < t.len() && 0 <= j < t.len() && i != j implies !ranges_overlap(
        t[i].0,
        t[i].1,
        t[j].0,
        t[j].1,
    ) by {
        assert(t[i].0 == c0 + i && t[i].1 == c0 + i + 1);
        assert(t[j].0 == c0 + j && t[j].1 == c0 + j + 1);
    };
}

/// A keystroke that inserts — a newline anywhere, or any character at the
/// end of a line — gains the tracker a fresh record over the unit range
/// it wrote, holding the empty original, while every tracked range at or
/// after the cursor shifts right by one: under the mapping invariant no
/// tracked range sits empty at the cursor, so the fresh record is never
/// swallowed by an old one.
pub proof fn insertion_gains_fresh_record(t: Seq<RecordModel>, s: Seq<char>, c: int, ch: char)
    requires
        tracker_units(t),
        is_insertion_at(s, c, ch),
    ensures
        fwd_tracker(t, s, c, ch) == shift_model(t, c).push((c, c + 1, Seq::<char>::empty())),
{
    lemma_find_record(t, c, c);
    if has_record(t, c, c) {
        let idx = find_record(t, c, c);
        assert(t[idx].1 == t[idx].0 + 1);
        assert(false);
    }
    let pushed = t.push((c, c, Seq::<char>::empty()));
    assert(fwd_tracker(t, s, c, ch) == shift_model(pushed, c));
    assert forall|i: int| 0 <= i < pushed.len() implies shift_model(pushed, c)[i]
        == shift_model(t, c).push((c, c + 1, Seq::<char>::empty()))[i] by {
        assert(shift_model(pushed, c)[i] == shift_record(pushed[i], c));
        if i < t.len() {
            assert(pushed[i] == t[i]);
            assert(shift_model(t, c)[i] == shift_record(t[i], c));
        }
    };
    assert(shift_model(pushed, c) =~= shift_model(t, c).push(
        (c, c + 1, Seq::<char>::empty())));
}

/// Newline handling: a newline typed in overwrite mode never overwrites a
/// character — its tracked original is empty and the text keeps every
/// character, the newline inserted at the cursor — and the undo motion
/// that follows removes only that inserted newline.
pub proof fn newline_never_overwrites(s: Seq<char>, c0: int, xs: Seq<char>)
    requires
        0 <= c0 <= s.len(),
    ensures
        step_recorded(s, c0, xs, '\n') == Seq::<char>::empty(),
        model_buffer(s, c0, xs.push('\n')) == model_buffer(s, c0, xs).insert(
            c0 + xs.len(),
            '\n',
        ),
        model_tracker(s, c0, xs.push('\n')) == model_tracker(s, c0, xs).push(
            (c0 + xs.len(), c0 + xs.len() + 1, Seq::<char>::empty()),
        ),
        undo_state(session_state(s, c0, xs.push('\n'))) == session_state(s, c0, xs),
{
    lemma_overwrites_bounds(s, c0, xs);
    lemma_keystroke_model(s, c0, xs, '\n');
    lemma_undo_model(s, c0, xs, '\n');
    let b = model_buffer(s, c0, xs);
    let c = c0 + xs.len();
    assert(model_buffer(s, c0, xs.push('\n')) =~= b.insert(c, '\n'));
    let ys = xs.push('\n');
    assert(ys.drop_last() =~= xs);
    assert(model_tracker(s, c0, ys) == model_tracker(s, c0, xs).push(
        (c, c + 1, step_recorded(s, c0, xs, '\n'))));
}

/// Boundary: when the session's cursor stands at the very end of the
/// text — the last column of the last line — a keystroke produces an
/// insertion whose tracked original is empty, and the undo motion that
/// follows removes the inserted character without touching anything else.
pub proof fn boundary_insertion(s: Seq<char>, c0: int, xs: Seq<char>, ch: char)
    requires
        0 <= c0 <= s.len(),
        c0 + overwrites_after(s, c0, xs) == s.len(),
    ensures
        is_insertion_at(model_buffer(s, c0, xs), c0 + xs.len(), ch),
        step_recorded(s, c0, xs, ch) == Seq::<char>::empty(),
        model_buffer(s, c0, xs.push(ch)) == model_buffer(s, c0, xs).push(ch),
        model_tracker(s, c0, xs.push(ch)) == model_tracker(s, c0, xs).push(
            (c0 + xs.len(), c0 + xs.len() + 1, Seq::<char>::empty()),
        ),
        undo_state(session_state(s, c0, xs.push(ch))) == session_state(s, c0, xs),
{
    lemma_overwrites_bounds(s, c0, xs);
    lemma_keystroke_model(s, c0, xs, ch);
    lemma_undo_model(s, c0, xs, ch);
    let b = model_buffer(s, c0, xs);
    let c = c0 + xs.len();
    assert(b.len() == c);
    assert(model_buffer(s, c0, xs.push(ch)) =~= b.push(ch));
    let ys = xs.push(ch);
    assert(ys.drop_last() =~= xs);
    assert(model_tracker(s, c0, ys) == model_tracker(s, c0, xs).push(
        (c, c + 1, step_recorded(s, c0, xs, ch))));
}

} // verus!
