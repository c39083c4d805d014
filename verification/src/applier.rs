//! The edit applier: computes and applies per-cursor overwrite edits for
//! one input character, and the inverse edits that undo them, keeping the
//! overwrite tracker in step with the text.

use vstd::prelude::*;

use crate::text::{TextBuffer, line_end_at};
use crate::tracker::{
    OverwriteTracker, RecordModel, find_record, has_record, lemma_find_record, ranges_overlap,
    record_model, shift_model, take_model, tracker_disjoint, tracker_units, tracker_within,
};

verus! {

// --- the forward (overwrite) step at one cursor ---

/// Whether typing `ch` at offset `c` is a pure insertion rather than a
/// replacement: a newline is always inserted, and at the end of a line
/// there is no character left to overwrite.
pub open spec fn is_insertion_at(s: Seq<char>, c: int, ch: char) -> bool {
    ch == '\n' || line_end_at(s, c)
}

/// The end of the range replaced by typing `ch` at offset `c`: the range
/// is empty for an insertion and covers one character for a replacement.
pub open spec fn fwd_target_end(s: Seq<char>, c: int, ch: char) -> int {
    if is_insertion_at(s, c, ch) {
        c
    } else {
        c + 1
    }
}

/// The text that typing `ch` at offset `c` overwrites: empty for an
/// insertion, the character under the cursor for a replacement.
pub open spec fn fwd_original(s: Seq<char>, c: int, ch: char) -> Seq<char> {
    if is_insertion_at(s, c, ch) {
        Seq::<char>::empty()
    } else {
        seq![s[c]]
    }
}

/// The text after typing `ch` at offset `c`.
pub open spec fn fwd_buffer(s: Seq<char>, c: int, ch: char) -> Seq<char> {
    s.subrange(0, c) + seq![ch] + s.subrange(fwd_target_end(s, c, ch), s.len() as int)
}

/// The tracker after typing `ch` at offset `c`: the overwritten text is
/// recorded first-write-wins, and for an insertion every record is
/// realigned around the new character.
pub open spec fn fwd_tracker(t: Seq<RecordModel>, s: Seq<char>, c: int, ch: char) -> Seq<
    RecordModel,
> {
    if is_insertion_at(s, c, ch) {
        shift_model(record_model(t, c, c, Seq::<char>::empty()), c)
    } else {
        record_model(t, c, c + 1, fwd_original(s, c, ch))
    }
}

/// Applies one overwrite keystroke at one cursor: records the text it
/// replaces, realigns the tracker if the keystroke inserts, and edits the
/// text. Returns whether the keystroke was a pure insertion.
pub fn step_forward(
    buf: &mut TextBuffer,
    tr: &mut OverwriteTracker,
    cursor: usize,
    input: char,
) -> (inserted: bool)
    requires
        cursor <= old(buf)@.len(),
        old(buf)@.len() < usize::MAX,
        tracker_within(old(tr)@, old(buf)@.len() as int),
        tracker_units(old(tr)@),
        tracker_disjoint(old(tr)@),
    ensures
        inserted == is_insertion_at(old(buf)@, cursor as int, input),
        final(buf)@ == fwd_buffer(old(buf)@, cursor as int, input),
        final(tr)@ == fwd_tracker(old(tr)@, old(buf)@, cursor as int, input),
        final(buf)@.len() == old(buf)@.len() + (if inserted { 1int } else { 0int }),
        tracker_within(final(tr)@, final(buf)@.len() as int),
        tracker_units(final(tr)@),
        tracker_disjoint(final(tr)@),
{
    let ghost s = old(buf)@;
    let ghost t0 = old(tr)@;
    let ghost c = cursor as int;
    let mut replacement: Vec<char> = Vec::new();
    replacement.push(input);
    let inserted = input == '\n' || buf.is_line_end(cursor);
    if inserted {
        proof {
            // a unit-width record never overlaps the empty range at the cursor
            assert forall|i: int| 0 <= i < t0.len() implies (((#[trigger] t0[i]).0 == c
                && t0[i].1 == c) || !ranges_overlap(t0[i].0, t0[i].1, c, c)) by {};
            lemma_find_record(t0, c, c);
            if has_record(t0, c, c) {
                let idx = find_record(t0, c, c);
                assert(t0[idx].1 == t0[idx].0 + 1);
                assert(false);
            }
        }
        let original: Vec<char> = Vec::new();
        tr.record(cursor, cursor, original);
        proof {
            assert(tr@ == t0.push((c, c, Seq::<char>::empty())));
            assert(tracker_within(tr@, s.len() as int));
            assert(forall|i: int|
                0 <= i < tr@.len() ==> (#[trigger] tr@[i]).1 < usize::MAX as int
                    && tr@[i].0 < usize::MAX as int);
        }
        tr.shift_for_insertion(cursor);
        buf.splice(cursor, cursor, &replacement);
        proof {
            let pushed = t0.push((c, c, Seq::<char>::empty()));
            let shifted = tr@;
            assert(tracker_within(shifted, buf@.len() as int)) by {
                assert forall|i: int| 0 <= i < shifted.len() implies 0 <= (
                #[trigger] shifted[i]).0 <= shifted[i].1 <= buf@.len() as int by {
                    assert(shifted[i] == crate::tracker::shift_record(pushed[i], c));
                    if i < t0.len() {
                        assert(pushed[i] == t0[i]);
                    }
                };
            }
            // every settled record is back to unit width
            assert forall|i: int| 0 <= i < shifted.len() implies (#[trigger] shifted[i]).1
                == shifted[i].0 + 1 by {
                assert(shifted[i] == crate::tracker::shift_record(pushed[i], c));
                if i < t0.len() {
                    assert(pushed[i] == t0[i]);
                }
            };
            // shifting keeps the starts distinct, so the ranges disjoint
            assert forall|i: int, j: int|
                0 <= i < shifted.len() && 0 <= j < shifted.len() && i != j
                implies !ranges_overlap(
                shifted[i].0,
                shifted[i].1,
                shifted[j].0,
                shifted[j].1,
            ) by {
                assert(shifted[i] == crate::tracker::shift_record(pushed[i], c));
                assert(shifted[j] == crate::tracker::shift_record(pushed[j], c));
                if i < t0.len() && j < t0.len() {
                    assert(pushed[i] == t0[i]);
                    assert(pushed[j] == t0[j]);
                    assert(!ranges_overlap(t0[i].0, t0[i].1, t0[j].0, t0[j].1));
                } else if i == t0.len() {
                    assert(pushed[j] == t0[j]);
                } else {
                    assert(pushed[i] == t0[i]);
                }
            };
        }
    } else {
        proof {
            // a unit record overlapping the cursor's unit range equals it
            assert forall|i: int| 0 <= i < t0.len() implies (((#[trigger] t0[i]).0 == c
                && t0[i].1 == c + 1) || !ranges_overlap(t0[i].0, t0[i].1, c, c + 1)) by {
                assert(t0[i].1 == t0[i].0 + 1);
            };
        }
        let mut original: Vec<char> = Vec::new();
        original.push(buf.char_at(cursor));
        tr.record(cursor, cursor + 1, original);
        buf.splice(cursor, cursor + 1, &replacement);
        proof {
            assert forall|i: int| 0 <= i < tr@.len() implies 0 <= (#[trigger] tr@[i]).0
                <= tr@[i].1 <= buf@.len() as int by {};
            assert forall|i: int| 0 <= i < tr@.len() implies (#[trigger] tr@[i]).1
                == tr@[i].0 + 1 by {};
        }
    }
    inserted
}

// --- the undo step at one cursor ---

/// The start of the range restored by one undo motion at offset `c`: one
/// position left of the cursor, which in offset space also covers the
/// wrap to the end of the previous line. At the start of the text there
/// is no leftward character and the range is empty.
pub open spec fn undo_start(c: int) -> int {
    if c > 0 {
        c - 1
    } else {
        0
    }
}

/// The end of the range restored by one undo motion at offset `c`: the
/// cursor itself, or the empty range at the start of the text, treated as
/// a trailing insertion with no leftward character.
pub open spec fn undo_end(c: int) -> int {
    if c > 0 {
        c
    } else {
        0
    }
}

/// Whether the undo motion at offset `c` finds no record for the slot it
/// restores: a tracking miss, recovered by a best-effort restoration. At
/// the start of the text there is no slot and nothing to miss.
pub open spec fn undo_missed(t: Seq<RecordModel>, c: int) -> bool {
    c > 0 && !has_record(t, c - 1, c)
}

/// What one undo motion at offset `c` writes back: the recorded original
/// text, or on a tracking miss the character currently at that position;
/// at the start of the text, nothing.
pub open spec fn undo_payload(t: Seq<RecordModel>, s: Seq<char>, c: int) -> Seq<char> {
    if c <= 0 {
        Seq::<char>::empty()
    } else if has_record(t, c - 1, c) {
        t[find_record(t, c - 1, c)].2
    } else if c - 1 < s.len() {
        seq![s[c - 1]]
    } else {
        Seq::<char>::empty()
    }
}

/// The text after one undo motion at offset `c`; at the start of the
/// text, unchanged.
pub open spec fn undo_buffer(t: Seq<RecordModel>, s: Seq<char>, c: int) -> Seq<char> {
    s.subrange(0, undo_start(c)) + undo_payload(t, s, c) + s.subrange(
        undo_end(c),
        s.len() as int,
    )
}

/// The tracker after one undo motion at offset `c`: the used record is
/// removed; at the start of the text, unchanged.
pub open spec fn undo_tracker(t: Seq<RecordModel>, c: int) -> Seq<RecordModel> {
    if c > 0 {
        take_model(t, c - 1, c)
    } else {
        t
    }
}

/// Where the cursor stands after one undo motion at offset `c`.
pub open spec fn undo_cursor(c: int) -> int {
    undo_start(c)
}

/// Applies one undo motion at one cursor: computes the slot the
/// immediately preceding keystroke overwrote, restores its recorded
/// original text — or, on a tracking miss, the character currently there,
/// best-effort — and removes the used record. At the start of the text
/// there is no leftward slot: text and tracker are left unchanged.
/// Returns whether a sought slot was untracked.
pub fn step_undo(buf: &mut TextBuffer, tr: &mut OverwriteTracker, cursor: usize) -> (missed:
    bool)
    requires
        cursor <= old(buf)@.len(),
    ensures
        missed == undo_missed(old(tr)@, cursor as int),
        final(buf)@ == undo_buffer(old(tr)@, old(buf)@, cursor as int),
        final(tr)@ == undo_tracker(old(tr)@, cursor as int),
        final(buf)@.len() + 1 >= old(buf)@.len(),
{
    let ghost s = old(buf)@;
    let ghost t0 = old(tr)@;
    if cursor == 0 {
        proof {
            assert(undo_buffer(t0, s, 0) =~= s);
        }
        return false;
    }
    let us: usize = cursor - 1;
    let taken = tr.take(us, cursor);
    let missed = match &taken {
        Some(_) => false,
        None => true,
    };
    let payload: Vec<char> = match taken {
        Some(v) => v,
        None => {
            let mut p: Vec<char> = Vec::new();
            if us < buf.len() {
                p.push(buf.char_at(us));
            }
            p
        },
    };
    proof {
        assert(payload@ == undo_payload(t0, s, cursor as int));
    }
    buf.splice(us, cursor, &payload);
    missed
}

// --- one keystroke or undo motion over the whole cursor set ---

/// Whether the cursor offsets are strictly ascending, so that the ranges
/// the keystroke touches are pairwise disjoint.
pub open spec fn strictly_ascending(cs: Seq<usize>) -> bool {
    forall|i: int, j: int|
        #![trigger cs[i], cs[j]]
        0 <= i < j < cs.len() ==> cs[i] < cs[j]
}

/// In a strictly ascending sequence, offsets grow at least as fast as
/// indices.
pub proof fn lemma_ascending_gap(cs: Seq<usize>, i: int, j: int)
    requires
        strictly_ascending(cs),
        0 <= i <= j < cs.len(),
    ensures
        cs[i] + (j - i) <= cs[j],
    decreases j - i,
{
    if i < j {
        lemma_ascending_gap(cs, i, j - 1);
    }
}

/// The text after one keystroke over the cursor set: each cursor's edit
/// computed and applied from the rightmost cursor leftward, so that an
/// edit never invalidates the offsets of the edits still to come.
pub open spec fn multi_fwd_buf(s: Seq<char>, t: Seq<RecordModel>, cs: Seq<usize>, ch: char) -> Seq<
    char,
>
    decreases cs.len(),
{
    if cs.len() == 0 {
        s
    } else {
        fwd_buffer(multi_fwd_buf(s, t, cs.drop_first(), ch), cs[0] as int, ch)
    }
}

/// The tracker after one keystroke over the cursor set, rightmost cursor
/// first.
pub open spec fn multi_fwd_tr(s: Seq<char>, t: Seq<RecordModel>, cs: Seq<usize>, ch: char) -> Seq<
    RecordModel,
>
    decreases cs.len(),
{
    if cs.len() == 0 {
        t
    } else {
        fwd_tracker(
            multi_fwd_tr(s, t, cs.drop_first(), ch),
            multi_fwd_buf(s, t, cs.drop_first(), ch),
            cs[0] as int,
            ch,
        )
    }
}

/// How many of the first `upto` cursors insert rather than replace when
/// `ch` is typed into text `s`.
pub open spec fn insertions_before(s: Seq<char>, cs: Seq<usize>, ch: char, upto: int) -> int
    decreases upto,
{
    if upto <= 0 {
        0
    } else {
        insertions_before(s, cs, ch, upto - 1) + if is_insertion_at(s, cs[upto - 1] as int, ch) {
            1int
        } else {
            0int
        }
    }
}

/// Applies one keystroke of overwrite mode over the whole cursor set, as
/// one atomic batch: per-cursor edits are applied from the rightmost
/// cursor leftward, and each cursor is then repositioned immediately
/// after its own inserted character, shifted right by one for every
/// insertion made by a cursor to its left.
pub fn multi_replace(
    buf: &mut TextBuffer,
    tr: &mut OverwriteTracker,
    cursors: &mut Vec<usize>,
    input: char,
)
    requires
        strictly_ascending(old(cursors)@),
        forall|i: int|
            0 <= i < old(cursors)@.len() ==> (#[trigger] old(cursors)@[i]) as int <= old(
                buf,
            )@.len(),
        tracker_within(old(tr)@, old(buf)@.len() as int),
        tracker_units(old(tr)@),
        tracker_disjoint(old(tr)@),
        old(buf)@.len() + old(cursors)@.len() < usize::MAX,
    ensures
        final(buf)@ == multi_fwd_buf(old(buf)@, old(tr)@, old(cursors)@, input),
        final(tr)@ == multi_fwd_tr(old(buf)@, old(tr)@, old(cursors)@, input),
        final(cursors)@.len() == old(cursors)@.len(),
        forall|i: int|
            0 <= i < final(cursors)@.len() ==> (#[trigger] final(cursors)@[i]) as int == old(
                cursors,
            )@[i] + 1 + insertions_before(old(buf)@, old(cursors)@, input, i),
        tracker_within(final(tr)@, final(buf)@.len() as int),
        tracker_units(final(tr)@),
        tracker_disjoint(final(tr)@),
{
    let ghost s0 = old(buf)@;
    let ghost t0 = old(tr)@;
    let ghost cs0 = old(cursors)@;
    let m = cursors.len();
    let mut flags: Vec<bool> = Vec::new();
    let mut i: usize = 0;
    while i < m
        invariant
            s0 == buf@,
            cs0 == cursors@,
            m == cs0.len(),
            i <= m,
            forall|j: int| 0 <= j < cs0.len() ==> (#[trigger] cs0[j]) as int <= s0.len(),
            flags@.len() == i as int,
            forall|j: int|
                0 <= j < i ==> (#[trigger] flags@[j]) == is_insertion_at(
                    s0,
                    cs0[j] as int,
                    input,
                ),
        decreases m - i,
    {
        let f = input == '\n' || buf.is_line_end(cursors[i]);
        flags.push(f);
        i = i + 1;
    }
    let mut k: usize = m;
    while k > 0
        invariant
            cs0 == cursors@,
            m == cs0.len(),
            k <= m,
            forall|j: int| 0 <= j < cs0.len() ==> (#[trigger] cs0[j]) as int <= s0.len(),
            s0.len() + m < usize::MAX,
            buf@ == multi_fwd_buf(s0, t0, cs0.skip(k as int), input),
            tr@ == multi_fwd_tr(s0, t0, cs0.skip(k as int), input),
            s0.len() <= buf@.len() <= s0.len() + (m - k),
            tracker_within(tr@, buf@.len() as int),
            tracker_units(tr@),
            tracker_disjoint(tr@),
        decreases k,
    {
        let ghost pre = cs0.skip(k as int);
        let c = cursors[k - 1];
        step_forward(buf, tr, c, input);
        k = k - 1;
        proof {
            assert(cs0.skip(k as int).drop_first() =~= pre);
            assert(cs0.skip(k as int)[0] == cs0[k as int]);
        }
    }
    proof {
        assert(cs0.skip(0) =~= cs0);
    }
    let mut out: Vec<usize> = Vec::new();
    let mut cnt: usize = 0;
    let mut i2: usize = 0;
    while i2 < m
        invariant
            cs0 == cursors@,
            m == cs0.len(),
            i2 <= m,
            forall|j: int| 0 <= j < cs0.len() ==> (#[trigger] cs0[j]) as int <= s0.len(),
            s0.len() + m < usize::MAX,
            flags@.len() == m as int,
            forall|j: int|
                0 <= j < m ==> (#[trigger] flags@[j]) == is_insertion_at(
                    s0,
                    cs0[j] as int,
                    input,
                ),
            cnt as int == insertions_before(s0, cs0, input, i2 as int),
            cnt <= i2,
            out@.len() == i2 as int,
            forall|j: int|
                0 <= j < i2 ==> (#[trigger] out@[j]) as int == cs0[j] + 1 + insertions_before(
                    s0,
                    cs0,
                    input,
                    j,
                ),
        decreases m - i2,
    {
        let c = cursors[i2];
        out.push(c + 1 + cnt);
        if flags[i2] {
            cnt = cnt + 1;
        }
        i2 = i2 + 1;
    }
    *cursors = out;
}

/// The text after one undo motion over the cursor set, the restorations
/// applied from the rightmost cursor leftward.
pub open spec fn multi_undo_buf(s: Seq<char>, t: Seq<RecordModel>, cs: Seq<usize>) -> Seq<char>
    decreases cs.len(),
{
    if cs.len() == 0 {
        s
    } else {
        undo_buffer(
            multi_undo_tr(t, cs.drop_first()),
            multi_undo_buf(s, t, cs.drop_first()),
            cs[0] as int,
        )
    }
}

/// The tracker after one undo motion over the cursor set.
pub open spec fn multi_undo_tr(t: Seq<RecordModel>, cs: Seq<usize>) -> Seq<RecordModel>
    decreases cs.len(),
{
    if cs.len() == 0 {
        t
    } else {
        undo_tracker(multi_undo_tr(t, cs.drop_first()), cs[0] as int)
    }
}

/// How many cursors of one undo motion hit an untracked slot.
pub open spec fn multi_undo_misses(t: Seq<RecordModel>, cs: Seq<usize>) -> int
    decreases cs.len(),
{
    if cs.len() == 0 {
        0
    } else {
        multi_undo_misses(t, cs.drop_first()) + if undo_missed(
            multi_undo_tr(t, cs.drop_first()),
            cs[0] as int,
        ) {
            1int
        } else {
            0int
        }
    }
}

/// Applies one undo motion over the whole cursor set, as one atomic
/// batch: each cursor restores the range its last keystroke overwrote,
/// rightmost cursor first, and moves one position left. Returns how many
/// cursors found no record — tracking misses recovered best-effort, to be
/// reported as diagnostics, never surfaced as errors.
pub fn undo_replace_motion(
    buf: &mut TextBuffer,
    tr: &mut OverwriteTracker,
    cursors: &mut Vec<usize>,
) -> (misses: usize)
    requires
        strictly_ascending(old(cursors)@),
        forall|i: int|
            0 <= i < old(cursors)@.len() ==> (#[trigger] old(cursors)@[i]) as int <= old(
                buf,
            )@.len(),
    ensures
        final(buf)@ == multi_undo_buf(old(buf)@, old(tr)@, old(cursors)@),
        final(tr)@ == multi_undo_tr(old(tr)@, old(cursors)@),
        misses as int == multi_undo_misses(old(tr)@, old(cursors)@),
        final(cursors)@.len() == old(cursors)@.len(),
        forall|i: int|
            0 <= i < final(cursors)@.len() ==> (#[trigger] final(cursors)@[i]) as int
                == undo_cursor(old(cursors)@[i] as int),
{
    let ghost s0 = old(buf)@;
    let ghost t0 = old(tr)@;
    let ghost cs0 = old(cursors)@;
    let m = cursors.len();
    let mut misses: usize = 0;
    let mut k: usize = m;
    while k > 0
        invariant
            cs0 == cursors@,
            m == cs0.len(),
            k <= m,
            strictly_ascending(cs0),
            forall|j: int| 0 <= j < cs0.len() ==> (#[trigger] cs0[j]) as int <= s0.len(),
            buf@ == multi_undo_buf(s0, t0, cs0.skip(k as int)),
            tr@ == multi_undo_tr(t0, cs0.skip(k as int)),
            misses as int == multi_undo_misses(t0, cs0.skip(k as int)),
            misses <= m - k,
            buf@.len() + (m - k) >= s0.len(),
        decreases k,
    {
        let ghost pre = cs0.skip(k as int);
        proof {
            if k < m {
                lemma_ascending_gap(cs0, k as int - 1, m as int - 1);
            }
        }
        let c = cursors[k - 1];
        let missed = step_undo(buf, tr, c);
        if missed {
            misses = misses + 1;
        }
        k = k - 1;
        proof {
            assert(cs0.skip(k as int).drop_first() =~= pre);
            assert(cs0.skip(k as int)[0] == cs0[k as int]);
        }
    }
    proof {
        assert(cs0.skip(0) =~= cs0);
    }
    let mut out: Vec<usize> = Vec::new();
    let mut i: usize = 0;
    while i < m
        invariant
            cs0 == cursors@,
            m == cs0.len(),
            i <= m,
            out@.len() == i as int,
            forall|j: int|
                0 <= j < i ==> (#[trigger] out@[j]) as int == undo_cursor(cs0[j] as int),
        decreases m - i,
    {
        let c = cursors[i];
        out.push(if c > 0 { c - 1 } else { 0 });
        i = i + 1;
    }
    *cursors = out;
    misses
}

} // verus!
