//! The overwrite-mode session: the feature's state machine. An editor is
//! `Inactive` until the mode is entered, which snapshots the text and
//! creates an empty tracker; keystrokes while active overwrite through
//! the edit applier; undo motions restore keystroke by keystroke; leaving
//! the mode discards the session.
//!
//! The session of a single cursor is modelled exactly: after typing the
//! characters `xs` from origin `c0` into snapshot `s`, the text, the
//! tracker and the cursor are each a function of `(s, c0, xs)` alone, and
//! the session methods are proved to move between these model states.

use vstd::prelude::*;

use crate::applier::{
    fwd_buffer, fwd_original, fwd_tracker, insertions_before, is_insertion_at, multi_fwd_buf,
    multi_fwd_tr, multi_replace, multi_undo_buf, multi_undo_misses, multi_undo_tr, strictly_ascending,
    undo_buffer, undo_cursor, undo_missed, undo_payload, undo_replace_motion, undo_tracker,
};
use crate::text::TextBuffer;
use crate::tracker::{
    OverwriteTracker, RecordModel, find_record, has_record, lemma_find_record, record_model,
    shift_model, shift_record, tracker_disjoint, tracker_units, tracker_within,
};

verus! {

// --- the model of a single-cursor session ---

/// How many of the keystrokes `xs`, typed in order from origin `c0` into
/// snapshot `s`, replaced an existing character: a keystroke replaces
/// unless it is a newline or the cursor has reached the end of its line.
pub open spec fn overwrites_after(s: Seq<char>, c0: int, xs: Seq<char>) -> int
    decreases xs.len(),
{
    if xs.len() == 0 {
        0
    } else {
        let d = overwrites_after(s, c0, xs.drop_last());
        if xs.last() != '\n' && c0 + d < s.len() && s[c0 + d] != '\n' {
            d + 1
        } else {
            d
        }
    }
}

/// The original text recorded by typing `ch` after the keystrokes `xs`:
/// the snapshot character it replaces, or empty for an insertion.
pub open spec fn step_recorded(s: Seq<char>, c0: int, xs: Seq<char>, ch: char) -> Seq<char> {
    let d = overwrites_after(s, c0, xs);
    if ch != '\n' && c0 + d < s.len() && s[c0 + d] != '\n' {
        seq![s[c0 + d]]
    } else {
        Seq::<char>::empty()
    }
}

/// The text after typing `xs` from origin `c0` into snapshot `s`: the
/// part before the origin, the typed characters, and the snapshot's tail
/// from behind the characters they replaced.
pub open spec fn model_buffer(s: Seq<char>, c0: int, xs: Seq<char>) -> Seq<char> {
    s.subrange(0, c0) + xs + s.subrange(c0 + overwrites_after(s, c0, xs), s.len() as int)
}

/// The tracker after typing `xs` from origin `c0`: one record per
/// keystroke, over the unit range it wrote, holding what it replaced.
pub open spec fn model_tracker(s: Seq<char>, c0: int, xs: Seq<char>) -> Seq<RecordModel>
    decreases xs.len(),
{
    if xs.len() == 0 {
        Seq::<RecordModel>::empty()
    } else {
        model_tracker(s, c0, xs.drop_last()).push(
            (
                c0 + xs.len() - 1,
                c0 + xs.len(),
                step_recorded(s, c0, xs.drop_last(), xs.last()),
            ),
        )
    }
}

/// The overwrite count never exceeds the keystroke count nor runs past
/// the end of the snapshot.
pub proof fn lemma_overwrites_bounds(s: Seq<char>, c0: int, xs: Seq<char>)
    requires
        0 <= c0 <= s.len(),
    ensures
        0 <= overwrites_after(s, c0, xs) <= xs.len(),
        c0 + overwrites_after(s, c0, xs) <= s.len(),
    decreases xs.len(),
{
    if xs.len() > 0 {
        lemma_overwrites_bounds(s, c0, xs.drop_last());
    }
}

/// The tracker of a session holds one record per keystroke, over the
/// consecutive unit ranges starting at the origin.
pub proof fn lemma_model_tracker_shape(s: Seq<char>, c0: int, xs: Seq<char>)
    ensures
        model_tracker(s, c0, xs).len() == xs.len(),
        forall|j: int|
            0 <= j < xs.len() ==> (#[trigger] model_tracker(s, c0, xs)[j]).0 == c0 + j
                && model_tracker(s, c0, xs)[j].1 == c0 + j + 1
                && model_tracker(s, c0, xs)[j].2 == step_recorded(
                s,
                c0,
                xs.subrange(0, j),
                xs[j],
            ),
    decreases xs.len(),
{
    if xs.len() > 0 {
        lemma_model_tracker_shape(s, c0, xs.drop_last());
        assert(xs.drop_last() =~= xs.subrange(0, xs.len() - 1));
        assert forall|j: int| 0 <= j < xs.len() - 1 implies xs.drop_last().subrange(0, j)
            =~= xs.subrange(0, j) && xs.drop_last()[j] == xs[j] by {};
    }
}

/// Typing one character moves the model state of a session one keystroke
/// forward: the applier's forward step, taken on the model text and
/// tracker at the session's cursor, lands exactly on the model state with
/// that character appended to the history.
pub proof fn lemma_keystroke_model(s: Seq<char>, c0: int, xs: Seq<char>, ch: char)
    requires
        0 <= c0 <= s.len(),
    ensures
        is_insertion_at(model_buffer(s, c0, xs), c0 + xs.len(), ch) == (step_recorded(
            s,
            c0,
            xs,
            ch,
        ).len() == 0),
        fwd_buffer(model_buffer(s, c0, xs), c0 + xs.len(), ch) == model_buffer(
            s,
            c0,
            xs.push(ch),
        ),
        fwd_tracker(model_tracker(s, c0, xs), model_buffer(s, c0, xs), c0 + xs.len(), ch)
            == model_tracker(s, c0, xs.push(ch)),
{
    lemma_overwrites_bounds(s, c0, xs);
    lemma_model_tracker_shape(s, c0, xs);
    let d = overwrites_after(s, c0, xs);
    let b = model_buffer(s, c0, xs);
    let t = model_tracker(s, c0, xs);
    let c = c0 + xs.len();
    let ys = xs.push(ch);
    assert(ys.drop_last() =~= xs);
    assert(ys.last() == ch);
    let d2 = overwrites_after(s, c0, ys);
    assert(b.len() == xs.len() + s.len() - d);
    // the character under the cursor of the model text is the snapshot
    // character behind the already-replaced ones
    if c0 + d < s.len() {
        assert(b[c] == s.subrange(c0 + d, s.len() as int)[0]);
        assert(b[c] == s[c0 + d]);
    }
    let ins = is_insertion_at(b, c, ch);
    assert(ins == (step_recorded(s, c0, xs, ch).len() == 0));
    assert(d2 == if ins {
        d
    } else {
        d + 1
    });
    // the text agrees
    let lhs = fwd_buffer(b, c, ch);
    let rhs = model_buffer(s, c0, ys);
    assert(b.subrange(0, c) =~= s.subrange(0, c0) + xs);
    if ins {
        assert(b.subrange(c, b.len() as int) =~= s.subrange(c0 + d, s.len() as int));
    } else {
        assert(b.subrange(c + 1, b.len() as int) =~= s.subrange(c0 + d + 1, s.len() as int));
    }
    assert(lhs =~= rhs);
    // the tracker agrees
    let entry = (c, c + 1, step_recorded(s, c0, xs, ch));
    assert(model_tracker(s, c0, ys) == t.push(entry));
    if ins {
        // no record covers the empty range at the cursor
        lemma_find_record(t, c, c);
        if has_record(t, c, c) {
            let idx = find_record(t, c, c);
            assert(t[idx].0 == c0 + idx && t[idx].1 == c0 + idx + 1);
            assert(false);
        }
        let pushed = t.push((c, c, Seq::<char>::empty()));
        assert(fwd_tracker(t, b, c, ch) == shift_model(pushed, c));
        assert forall|j: int| 0 <= j < pushed.len() implies shift_model(pushed, c)[j]
            == t.push(entry)[j] by {
            assert(shift_model(pushed, c)[j] == shift_record(pushed[j], c));
            if j < t.len() {
                assert(pushed[j] == t[j]);
                assert(t[j].0 == c0 + j && t[j].1 == c0 + j + 1);
                assert(t[j].0 < c);
                assert(shift_record(t[j], c) == t[j]);
            } else {
                assert(pushed[j] == (c, c, Seq::<char>::empty()));
                assert(step_recorded(s, c0, xs, ch) =~= Seq::<char>::empty());
            }
        };
        assert(shift_model(pushed, c) =~= t.push(entry));
    } else {
        // no record covers the cursor's unit range yet
        lemma_find_record(t, c, c + 1);
        if has_record(t, c, c + 1) {
            let idx = find_record(t, c, c + 1);
            assert(t[idx].0 == c0 + idx && t[idx].1 == c0 + idx + 1);
            assert(false);
        }
        assert(fwd_original(b, c, ch) =~= step_recorded(s, c0, xs, ch));
        assert(fwd_tracker(t, b, c, ch) == record_model(t, c, c + 1, fwd_original(b, c, ch)));
        assert(fwd_tracker(t, b, c, ch) =~= t.push(entry));
    }
}

/// One undo motion moves the model state of a session one keystroke back:
/// taken at the session's cursor, it finds the last keystroke's record,
/// restores exactly what that keystroke replaced, and lands on the model
/// state with the last character of the history removed.
pub proof fn lemma_undo_model(s: Seq<char>, c0: int, xs: Seq<char>, ch: char)
    requires
        0 <= c0 <= s.len(),
    ensures
        !undo_missed(model_tracker(s, c0, xs.push(ch)), c0 + xs.len() + 1),
        undo_buffer(
            model_tracker(s, c0, xs.push(ch)),
            model_buffer(s, c0, xs.push(ch)),
            c0 + xs.len() + 1,
        ) == model_buffer(s, c0, xs),
        undo_tracker(model_tracker(s, c0, xs.push(ch)), c0 + xs.len() + 1) == model_tracker(
            s,
            c0,
            xs,
        ),
        undo_cursor(c0 + xs.len() + 1) == c0 + xs.len(),
{
    lemma_overwrites_bounds(s, c0, xs);
    let ys = xs.push(ch);
    assert(ys.drop_last() =~= xs);
    lemma_model_tracker_shape(s, c0, ys);
    lemma_overwrites_bounds(s, c0, ys);
    let d = overwrites_after(s, c0, xs);
    let d2 = overwrites_after(s, c0, ys);
    let k = xs.len() as int;
    let c = c0 + k + 1;
    let b2 = model_buffer(s, c0, ys);
    let t2 = model_tracker(s, c0, ys);
    let rec = step_recorded(s, c0, xs, ch);
    assert(t2.len() == k + 1);
    assert(t2[k] == (c0 + k, c0 + k + 1, rec));
    assert(b2.len() == k + 1 + s.len() - d2);
    // the undo motion's target range is the last keystroke's record
    lemma_find_record(t2, c0 + k, c0 + k + 1);
    assert(has_record(t2, c0 + k, c0 + k + 1));
    let idx = find_record(t2, c0 + k, c0 + k + 1);
    assert(t2[idx].0 == c0 + idx);
    assert(idx == k);
    // the restoration returns the text to the previous model state
    let restored = undo_buffer(t2, b2, c);
    assert(undo_payload(t2, b2, c) == rec);
    assert(d2 == if rec.len() == 0 {
        d
    } else {
        d + 1
    });
    assert(b2.subrange(0, c0 + k) =~= s.subrange(0, c0) + xs);
    assert(b2.subrange(c, b2.len() as int) =~= s.subrange(c0 + d2, s.len() as int));
    if rec.len() == 0 {
        assert(restored =~= model_buffer(s, c0, xs));
    } else {
        assert(rec == seq![s[c0 + d]]);
        assert(restored =~= model_buffer(s, c0, xs));
    }
    // the used record is removed, leaving the previous tracker
    assert(undo_tracker(t2, c) == t2.remove(k));
    assert(model_tracker(s, c0, ys) == model_tracker(s, c0, xs).push((c0 + k, c0 + k + 1, rec)));
    assert(t2.remove(k) =~= model_tracker(s, c0, xs));
}

// --- the session state and the editing component around it ---

/// The state owned by an active overwrite mode: the snapshot of the text
/// taken at mode entry, the tracker, and — as ghost state — the origin
/// cursor and the history of keystrokes still standing, which carry the
/// single-cursor model through the proofs.
pub struct OverwriteSession {
    pub snapshot: Vec<char>,
    pub tracker: OverwriteTracker,
    pub origin: Ghost<int>,
    pub typed: Ghost<Seq<char>>,
}

/// The editing component: the text, the cursor set, and the overwrite
/// session while the mode is active.
pub struct Editor {
    pub buffer: TextBuffer,
    pub cursors: Vec<usize>,
    pub session: Option<OverwriteSession>,
}

/// A well-formed single-cursor session: the text, the tracker and the
/// cursor all stand exactly at the model state reached by typing the
/// session's history from its origin into its snapshot.
pub open spec fn overwrite_wf(e: Editor) -> bool {
    match e.session {
        Some(sess) => {
            let s = sess.snapshot@;
            let c0 = sess.origin@;
            let xs = sess.typed@;
            &&& e.cursors@.len() == 1
            &&& 0 <= c0 <= s.len()
            &&& e.cursors@[0] as int == c0 + xs.len()
            &&& e.buffer@ == model_buffer(s, c0, xs)
            &&& sess.tracker@ == model_tracker(s, c0, xs)
        },
        None => false,
    }
}

impl Editor {
    /// An editor over the given text and cursors, with overwrite mode off.
    pub fn new(buffer: TextBuffer, cursors: Vec<usize>) -> (e: Editor)
        ensures
            e.buffer@ == buffer@,
            e.cursors@ == cursors@,
            e.session is None,
    {
        Editor { buffer, cursors, session: None }
    }

    pub open spec fn in_overwrite(self) -> bool {
        self.session is Some
    }

    pub fn overwrite_active(&self) -> (r: bool)
        ensures
            r == self.in_overwrite(),
    {
        self.session.is_some()
    }

    /// Enters or leaves overwrite mode. Entering snapshots the text and
    /// starts an empty tracker; leaving discards both.
    pub fn toggle_overwrite(&mut self)
        ensures
            final(self).buffer@ == old(self).buffer@,
            final(self).cursors@ == old(self).cursors@,
            old(self).in_overwrite() ==> final(self).session is None,
            !old(self).in_overwrite() ==> match final(self).session {
                Some(sess) => {
                    &&& sess.snapshot@ == old(self).buffer@
                    &&& sess.tracker@ == Seq::<RecordModel>::empty()
                    &&& sess.typed@ == Seq::<char>::empty()
                    &&& sess.origin@ == (if old(self).cursors@.len() == 1 {
                        old(self).cursors@[0] as int
                    } else {
                        0
                    })
                },
                None => false,
            },
            !old(self).in_overwrite() && old(self).cursors@.len() == 1
                && old(self).cursors@[0] as int <= old(self).buffer@.len()
                ==> overwrite_wf(*final(self)),
    {
        if self.session.is_some() {
            self.session = None;
        } else {
            let snapshot = self.buffer.clone_chars();
            let ghost c0 = if self.cursors@.len() == 1 {
                self.cursors@[0] as int
            } else {
                0
            };
            self.session = Some(
                OverwriteSession {
                    snapshot,
                    tracker: OverwriteTracker::new(),
                    origin: Ghost(c0),
                    typed: Ghost(Seq::<char>::empty()),
                },
            );
            proof {
                if self.cursors@.len() == 1 && c0 <= self.buffer@.len() {
                    assert(model_buffer(self.buffer@, c0, Seq::<char>::empty())
                        =~= self.buffer@);
                }
            }
        }
    }

    /// The cursor set is strictly ascending and lies within the text.
    pub open spec fn cursors_valid(self) -> bool {
        &&& strictly_ascending(self.cursors@)
        &&& forall|i: int|
            0 <= i < self.cursors@.len() ==> (#[trigger] self.cursors@[i]) as int
                <= self.buffer@.len()
    }

    /// Basic validity of a keystroke into the active mode: the mode is
    /// on, the cursors are strictly ascending within the text, and the
    /// tracker's ranges lie within the text, one position wide each and
    /// pairwise non-overlapping.
    pub open spec fn valid_overwrite(self) -> bool {
        &&& self.session is Some
        &&& self.cursors_valid()
        &&& match self.session {
            Some(sess) => tracker_within(sess.tracker@, self.buffer@.len() as int)
                && tracker_units(sess.tracker@) && tracker_disjoint(sess.tracker@),
            None => false,
        }
    }

    /// One keystroke of overwrite mode over the whole cursor set: each
    /// cursor overwrites the character under it — or inserts at end of
    /// line or for a newline — the replaced text is recorded, and each
    /// cursor moves past what it wrote. On a well-formed single-cursor
    /// session this is one model step forward.
    pub fn keystroke(&mut self, input: char)
        requires
            old(self).valid_overwrite(),
            old(self).buffer@.len() + old(self).cursors@.len() < usize::MAX,
        ensures
            final(self).session is Some,
            match (old(self).session, final(self).session) {
                (Some(o), Some(n)) => {
                    &&& final(self).buffer@ == multi_fwd_buf(
                        old(self).buffer@,
                        o.tracker@,
                        old(self).cursors@,
                        input,
                    )
                    &&& n.tracker@ == multi_fwd_tr(
                        old(self).buffer@,
                        o.tracker@,
                        old(self).cursors@,
                        input,
                    )
                    &&& n.snapshot@ == o.snapshot@
                    &&& n.origin == o.origin
                    &&& n.typed@ == o.typed@.push(input)
                    &&& tracker_units(n.tracker@)
                    &&& tracker_disjoint(n.tracker@)
                },
                _ => false,
            },
            final(self).cursors@.len() == old(self).cursors@.len(),
            forall|i: int|
                0 <= i < final(self).cursors@.len()
                    ==> (#[trigger] final(self).cursors@[i]) as int
                    == old(self).cursors@[i] + 1 + insertions_before(
                    old(self).buffer@,
                    old(self).cursors@,
                    input,
                    i,
                ),
            overwrite_wf(*old(self)) ==> overwrite_wf(*final(self)),
    {
        let ghost s0 = self.buffer@;
        let ghost cs0 = self.cursors@;
        match &mut self.session {
            Some(sess) => {
                let ghost t0 = sess.tracker@;
                let ghost snap = sess.snapshot@;
                let ghost c0 = sess.origin@;
                let ghost xs = sess.typed@;
                multi_replace(&mut self.buffer, &mut sess.tracker, &mut self.cursors, input);
                proof {
                    sess.typed@ = xs.push(input);
                }
                proof {
                    if overwrite_wf(*old(self)) {
                        lemma_keystroke_model(snap, c0, xs, input);
                        assert(cs0.drop_first() =~= Seq::<usize>::empty());
                        assert(multi_fwd_buf(s0, t0, cs0.drop_first(), input) == s0);
                        assert(multi_fwd_tr(s0, t0, cs0.drop_first(), input) == t0);
                        assert(multi_fwd_buf(s0, t0, cs0, input) == fwd_buffer(
                            s0,
                            cs0[0] as int,
                            input,
                        ));
                        assert(multi_fwd_tr(s0, t0, cs0, input) == fwd_tracker(
                            t0,
                            s0,
                            cs0[0] as int,
                            input,
                        ));
                        assert(insertions_before(s0, cs0, input, 0) == 0);
                        assert(overwrite_wf(*self));
                    }
                }
            },
            None => {
                proof {
                    assert(false);
                }
            },
        }
    }

}

/// What one undo motion does to an editor: a silent no-op when the mode
/// was never entered; while active, the batch restoration over the
/// cursor set, with the keystroke history shortened by one and `misses`
/// counting the cursors whose range was untracked. On a well-formed
/// single-cursor session with a keystroke standing it is exactly one
/// model step back, and nothing is missed.
pub open spec fn undo_transition(pre: Editor, post: Editor, misses: usize) -> bool {
    &&& (pre.session is None ==> post == pre && misses == 0)
    &&& (post.session is Some <==> pre.session is Some)
    &&& match (pre.session, post.session) {
        (Some(o), Some(n)) => {
            &&& post.buffer@ == multi_undo_buf(pre.buffer@, o.tracker@, pre.cursors@)
            &&& n.tracker@ == multi_undo_tr(o.tracker@, pre.cursors@)
            &&& misses as int == multi_undo_misses(o.tracker@, pre.cursors@)
            &&& n.snapshot@ == o.snapshot@
            &&& n.origin == o.origin
            &&& n.typed@ == (if o.typed@.len() > 0 {
                o.typed@.drop_last()
            } else {
                o.typed@
            })
            &&& post.cursors@.len() == pre.cursors@.len()
            &&& forall|i: int|
                0 <= i < post.cursors@.len() ==> (#[trigger] post.cursors@[i]) as int
                    == undo_cursor(pre.cursors@[i] as int)
        },
        (None, None) => true,
        _ => false,
    }
    &&& (overwrite_wf(pre) && (match pre.session {
        Some(o) => o.typed@.len() > 0,
        None => false,
    }) ==> overwrite_wf(post) && misses == 0)
}

impl Editor {
    /// One undo motion: if the mode was never entered, a silent no-op.
    /// While active, each cursor restores what its most recent keystroke
    /// overwrote and steps one position left; the returned count says at
    /// how many cursors no record was found — tracking misses, recovered
    /// best-effort and reported only as a diagnostic.
    pub fn undo_motion(&mut self) -> (misses: usize)
        requires
            old(self).session is Some ==> old(self).cursors_valid(),
        ensures
            undo_transition(*old(self), *final(self), misses),
    {
        let ghost s0 = self.buffer@;
        let ghost cs0 = self.cursors@;
        match &mut self.session {
            Some(sess) => {
                let ghost t0 = sess.tracker@;
                let ghost snap = sess.snapshot@;
                let ghost c0 = sess.origin@;
                let ghost xs = sess.typed@;
                let misses = undo_replace_motion(
                    &mut self.buffer,
                    &mut sess.tracker,
                    &mut self.cursors,
                );
                proof {
                    sess.typed@ = if xs.len() > 0 {
                        xs.drop_last()
                    } else {
                        xs
                    };
                }
                proof {
                    if overwrite_wf(*old(self)) && xs.len() > 0 {
                        let prev = xs.drop_last();
                        assert(prev.push(xs.last()) =~= xs);
                        lemma_undo_model(snap, c0, prev, xs.last());
                        assert(cs0.drop_first() =~= Seq::<usize>::empty());
                        assert(multi_undo_buf(s0, t0, cs0.drop_first()) == s0);
                        assert(multi_undo_tr(t0, cs0.drop_first()) == t0);
                        assert(multi_undo_misses(t0, cs0.drop_first()) == 0);
                        assert(multi_undo_misses(t0, cs0) == 0);
                        assert(multi_undo_buf(s0, t0, cs0) == undo_buffer(
                            t0,
                            s0,
                            cs0[0] as int,
                        ));
                        assert(multi_undo_tr(t0, cs0) == undo_tracker(t0, cs0[0] as int));
                        assert(overwrite_wf(*self));
                    }
                }
                misses
            },
            None => 0,
        }
    }

    /// The recorded original text for exactly the range `[start, end)`,
    /// while overwrite mode is active.
    pub fn recorded(&self, start: usize, end: usize) -> (r: Option<&Vec<char>>)
        ensures
            match self.session {
                Some(sess) => match r {
                    Some(v) => has_record(sess.tracker@, start as int, end as int) && v@
                        == sess.tracker@[find_record(sess.tracker@, start as int, end as int)].2,
                    None => !has_record(sess.tracker@, start as int, end as int),
                },
                None => r is None,
            },
    {
        match &self.session {
            Some(sess) => sess.tracker.get(start, end),
            None => None,
        }
    }

    /// How many ranges the active session tracks; zero while the mode is
    /// off.
    pub fn recorded_count(&self) -> (r: usize)
        ensures
            r as int == match self.session {
                Some(sess) => sess.tracker@.len() as int,
                None => 0int,
            },
    {
        match &self.session {
            Some(sess) => sess.tracker.record_count(),
            None => 0,
        }
    }
}


/// The replace-mode motion dispatch: without a pending operator the
/// motion runs the undo restoration. With a pending operator overwrite
/// mode has no meaningful target, so the motion is ignored and the
/// editor left untouched — a condition for the caller to report.
pub fn replace_motion(editor: &mut Editor, operator_pending: bool) -> (misses: usize)
    requires
        old(editor).session is Some ==> old(editor).cursors_valid(),
    ensures
        operator_pending ==> *final(editor) == *old(editor) && misses == 0,
        !operator_pending ==> undo_transition(*old(editor), *final(editor), misses),
{
    if operator_pending {
        0
    } else {
        editor.undo_motion()
    }
}

} // verus!
