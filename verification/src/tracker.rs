//! The overwrite tracker: a mapping from currently-overwritten ranges of
//! the text to the text that originally occupied them, kept aligned with
//! the text as insertions shift offsets.
//!
//! A record is modelled as the triple `(start, end, original)`; the
//! tracker's view is the sequence of its records in insertion order.

use vstd::prelude::*;

verus! {

/// The mathematical model of one record: a half-open range of offsets and
/// the text that originally occupied it.
pub type RecordModel = (int, int, Seq<char>);

/// The first index of a record for exactly the range `[s, e)`, or `-1`
/// when none is present.
pub open spec fn find_record(t: Seq<RecordModel>, s: int, e: int) -> int
    decreases t.len(),
{
    if t.len() == 0 {
        -1
    } else if t[0].0 == s && t[0].1 == e {
        0
    } else {
        let rest = find_record(t.drop_first(), s, e);
        if rest < 0 {
            -1
        } else {
            rest + 1
        }
    }
}

/// Whether some record covers exactly the range `[s, e)`.
pub open spec fn has_record(t: Seq<RecordModel>, s: int, e: int) -> bool {
    find_record(t, s, e) >= 0
}

/// `find_record` returns either `-1` and no record matches, or the first
/// matching index.
pub proof fn lemma_find_record(t: Seq<RecordModel>, s: int, e: int)
    ensures
        find_record(t, s, e) < 0 ==> forall|i: int|
            0 <= i < t.len() ==> !((#[trigger] t[i]).0 == s && t[i].1 == e),
        find_record(t, s, e) >= 0 ==> {
            let idx = find_record(t, s, e);
            &&& 0 <= idx < t.len()
            &&& t[idx].0 == s && t[idx].1 == e
            &&& forall|i: int| 0 <= i < idx ==> !((#[trigger] t[i]).0 == s && t[i].1 == e)
        },
    decreases t.len(),
{
    if t.len() == 0 {
    } else if t[0].0 == s && t[0].1 == e {
    } else {
        lemma_find_record(t.drop_first(), s, e);
        let rest = find_record(t.drop_first(), s, e);
        if rest < 0 {
            assert forall|i: int| 0 <= i < t.len() implies !((#[trigger] t[i]).0 == s
                && t[i].1 == e) by {
                if i >= 1 {
                    assert(t[i] == t.drop_first()[i - 1]);
                }
            };
        } else {
            assert(t[rest + 1] == t.drop_first()[rest]);
            assert forall|i: int| 0 <= i < rest + 1 implies !((#[trigger] t[i]).0 == s
                && t[i].1 == e) by {
                if i >= 1 {
                    assert(t[i] == t.drop_first()[i - 1]);
                }
            };
        }
    }
}

/// Recording a range that is already tracked is a no-op; otherwise the
/// record is appended.
pub open spec fn record_model(
    t: Seq<RecordModel>,
    s: int,
    e: int,
    original: Seq<char>,
) -> Seq<RecordModel> {
    if has_record(t, s, e) {
        t
    } else {
        t.push((s, e, original))
    }
}

/// What remains after removing the first record for `[s, e)`, if any.
pub open spec fn take_model(t: Seq<RecordModel>, s: int, e: int) -> Seq<RecordModel> {
    if has_record(t, s, e) {
        t.remove(find_record(t, s, e))
    } else {
        t
    }
}

/// How one record moves when a single character is inserted at offset
/// `at`: the empty range at the insertion point grows around the new
/// character, ranges at or after it shift right, earlier ranges stay.
pub open spec fn shift_record(r: RecordModel, at: int) -> RecordModel {
    if r.0 == at && r.1 == at {
        (r.0, r.1 + 1, r.2)
    } else if r.0 >= at {
        (r.0 + 1, r.1 + 1, r.2)
    } else {
        r
    }
}

/// All records realigned for an insertion at offset `at`.
pub open spec fn shift_model(t: Seq<RecordModel>, at: int) -> Seq<RecordModel> {
    t.map_values(|r: RecordModel| shift_record(r, at))
}

/// Every record's range lies within `[0, bound]`, start before end.
pub open spec fn tracker_within(t: Seq<RecordModel>, bound: int) -> bool {
    forall|i: int| 0 <= i < t.len() ==> 0 <= (#[trigger] t[i]).0 <= t[i].1 <= bound
}

/// Whether two half-open ranges overlap: some position lies in both.
pub open spec fn ranges_overlap(s1: int, e1: int, s2: int, e2: int) -> bool {
    s1 < e2 && s2 < e1
}

/// The invariant of the mapping: the tracked ranges are pairwise
/// non-overlapping at any instant.
pub open spec fn tracker_disjoint(t: Seq<RecordModel>) -> bool {
    forall|i: int, j: int|
        #![trigger t[i], t[j]]
        0 <= i < t.len() && 0 <= j < t.len() && i != j ==> !ranges_overlap(
            t[i].0,
            t[i].1,
            t[j].0,
            t[j].1,
        )
}

/// Every record covers exactly one position — the shape every settled
/// tracker of an overwrite session has, under which records with
/// distinct starts never overlap.
pub open spec fn tracker_units(t: Seq<RecordModel>) -> bool {
    forall|i: int| 0 <= i < t.len() ==> (#[trigger] t[i]).1 == t[i].0 + 1
}

/// One tracked record: a half-open range `[start, end)` of offsets into
/// the text, and the text that originally occupied that range.
pub struct TrackRecord {
    pub start: usize,
    pub end: usize,
    pub original: Vec<char>,
}

impl View for TrackRecord {
    type V = RecordModel;

    open spec fn view(&self) -> RecordModel {
        (self.start as int, self.end as int, self.original@)
    }
}

/// The overwrite tracker. Records are kept in insertion order; a range is
/// recorded at most once by `record`, whose first-write-wins behaviour
/// keeps the true original text under repeated overwrites.
pub struct OverwriteTracker {
    records: Vec<TrackRecord>,
}

impl View for OverwriteTracker {
    type V = Seq<RecordModel>;

    closed spec fn view(&self) -> Seq<RecordModel> {
        self.records@.map_values(|r: TrackRecord| r@)
    }
}

impl OverwriteTracker {
    /// An empty tracker, as created when overwrite mode is entered.
    pub fn new() -> (r: OverwriteTracker)
        ensures
            r@ == Seq::<RecordModel>::empty(),
    {
        let t = OverwriteTracker { records: Vec::new() };
        proof {
            assert(t@ =~= Seq::<RecordModel>::empty());
        }
        t
    }

    pub fn record_count(&self) -> (r: usize)
        ensures
            r == self@.len(),
    {
        self.records.len()
    }

    /// The position of the first record for exactly `[start, end)`, if any.
    fn find(&self, start: usize, end: usize) -> (r: Option<usize>)
        ensures
            match r {
                Some(i) => i == find_record(self@, start as int, end as int),
                None => find_record(self@, start as int, end as int) < 0,
            },
    {
        let ghost t = self@;
        let ghost s = start as int;
        let ghost e = end as int;
        let n = self.records.len();
        let mut i: usize = 0;
        while i < n
            invariant
                t == self@,
                s == start as int,
                e == end as int,
                n == t.len(),
                n == self.records@.len(),
                i <= n,
                forall|j: int| 0 <= j < i ==> !((#[trigger] t[j]).0 == s && t[j].1 == e),
            decreases n - i,
        {
            if self.records[i].start == start && self.records[i].end == end {
                proof {
                    assert(t[i as int] == self.records@[i as int]@);
                    lemma_find_record(t, s, e);
                }
                return Some(i);
            }
            proof {
                assert(t[i as int] == self.records@[i as int]@);
            }
            i = i + 1;
        }
        proof {
            lemma_find_record(t, s, e);
        }
        None
    }

    /// Whether the exact range `[start, end)` is already tracked.
    pub fn contains(&self, start: usize, end: usize) -> (r: bool)
        ensures
            r == has_record(self@, start as int, end as int),
    {
        proof {
            lemma_find_record(self@, start as int, end as int);
        }
        match self.find(start, end) {
            Some(_) => true,
            None => false,
        }
    }

    /// The recorded original text for exactly `[start, end)`, if any,
    /// without removing it.
    pub fn get(&self, start: usize, end: usize) -> (r: Option<&Vec<char>>)
        ensures
            match r {
                Some(v) => has_record(self@, start as int, end as int)
                    && v@ == self@[find_record(self@, start as int, end as int)].2,
                None => !has_record(self@, start as int, end as int),
            },
    {
        proof {
            lemma_find_record(self@, start as int, end as int);
        }
        match self.find(start, end) {
            Some(i) => {
                proof {
                    assert(self@[i as int] == self.records@[i as int]@);
                }
                Some(&self.records[i].original)
            },
            None => None,
        }
    }

    /// Records the original text of a range about to be overwritten.
    /// First write wins: if the range is already tracked, the call is a
    /// no-op, so repeated overwrites of one position keep its true
    /// original. A new range must not overlap a tracked one, so that the
    /// mapping's ranges stay pairwise non-overlapping.
    pub fn record(&mut self, start: usize, end: usize, original: Vec<char>)
        requires
            forall|i: int|
                0 <= i < old(self)@.len() ==> ((#[trigger] old(self)@[i]).0 == start as int
                    && old(self)@[i].1 == end as int) || !ranges_overlap(
                    old(self)@[i].0,
                    old(self)@[i].1,
                    start as int,
                    end as int,
                ),
        ensures
            final(self)@ == record_model(old(self)@, start as int, end as int, original@),
            tracker_disjoint(old(self)@) ==> tracker_disjoint(final(self)@),
    {
        let ghost t = self@;
        let ghost orig = original@;
        proof {
            lemma_find_record(t, start as int, end as int);
        }
        match self.find(start, end) {
            Some(_) => {},
            None => {
                let ghost recs = self.records@;
                self.records.push(TrackRecord { start, end, original });
                proof {
                    assert(self@ =~= t.push((start as int, end as int, orig)));
                    if tracker_disjoint(t) {
                        assert forall|i: int, j: int|
                            0 <= i < self@.len() && 0 <= j < self@.len() && i != j
                            implies !ranges_overlap(
                            self@[i].0,
                            self@[i].1,
                            self@[j].0,
                            self@[j].1,
                        ) by {
                            if i < t.len() && j < t.len() {
                                assert(self@[i] == t[i]);
                                assert(self@[j] == t[j]);
                            } else if i == t.len() {
                                assert(self@[j] == t[j]);
                            } else {
                                assert(self@[i] == t[i]);
                            }
                        };
                    }
                }
            },
        }
    }

    /// Removes and returns the recorded original text for exactly
    /// `[start, end)`; `None` when the range is untracked, which the
    /// caller must treat as "nothing to restore here".
    pub fn take(&mut self, start: usize, end: usize) -> (r: Option<Vec<char>>)
        ensures
            final(self)@ == take_model(old(self)@, start as int, end as int),
            match r {
                Some(v) => has_record(old(self)@, start as int, end as int)
                    && v@ == old(self)@[find_record(old(self)@, start as int, end as int)].2,
                None => !has_record(old(self)@, start as int, end as int),
            },
    {
        let ghost t = self@;
        proof {
            lemma_find_record(t, start as int, end as int);
        }
        match self.find(start, end) {
            Some(i) => {
                proof {
                    assert(t[i as int] == self.records@[i as int]@);
                }
                let rec = self.records.remove(i);
                proof {
                    assert(self@ =~= t.remove(i as int));
                }
                Some(rec.original)
            },
            None => None,
        }
    }

    /// Realigns every record for an insertion of one character at offset
    /// `at`: the empty range at the insertion point grows around the
    /// inserted character, ranges at or after it shift right by one.
    pub fn shift_for_insertion(&mut self, at: usize)
        requires
            forall|i: int|
                0 <= i < old(self)@.len() ==> (#[trigger] old(self)@[i]).1 < usize::MAX as int
                    && old(self)@[i].0 < usize::MAX as int,
        ensures
            final(self)@ == shift_model(old(self)@, at as int),
    {
        let ghost before = self@;
        let mut src: Vec<TrackRecord> = Vec::new();
        core::mem::swap(&mut self.records, &mut src);
        let mut out: Vec<TrackRecord> = Vec::new();
        while src.len() > 0
            invariant
                src@.len() <= before.len(),
                src@.map_values(|r: TrackRecord| r@) =~= before.subrange(
                    before.len() - src@.len(), before.len() as int),
                out@.map_values(|r: TrackRecord| r@) =~= before.subrange(
                    0, before.len() - src@.len()).map_values(
                    |r: RecordModel| shift_record(r, at as int)),
                forall|j: int|
                    0 <= j < before.len() ==> (#[trigger] before[j]).1 < usize::MAX as int
                        && before[j].0 < usize::MAX as int,
            decreases src@.len(),
        {
            let ghost i = before.len() - src@.len();
            let ghost src_before = src@;
            let ghost src_map = src@.map_values(|r: TrackRecord| r@);
            let ghost out_vec_before = out@;
            let ghost out_before = out@.map_values(|r: TrackRecord| r@);
            proof {
                assert(src_map[0] == src_before[0]@);
                assert(src_map[0] == before.subrange(i, before.len() as int)[0]);
                assert(src_before[0]@ == before[i]);
            }
            let rec = src.remove(0);
            let moved: TrackRecord = if rec.start == at && rec.end == at {
                TrackRecord { start: rec.start, end: rec.end + 1, original: rec.original }
            } else if rec.start >= at {
                TrackRecord { start: rec.start + 1, end: rec.end + 1, original: rec.original }
            } else {
                rec
            };
            proof {
                assert(moved@ == shift_record(before[i], at as int));
            }
            out.push(moved);
            proof {
                let new_src_map = src@.map_values(|r: TrackRecord| r@);
                assert forall|j: int| 0 <= j < src@.len() implies new_src_map[j] == before[
                    i + 1 + j] by {
                    assert(src@[j] == src_before[j + 1]);
                    assert(src_map[j + 1] == src_before[j + 1]@);
                    assert(src_map[j + 1] == before.subrange(i, before.len() as int)[j + 1]);
                };
                assert(new_src_map =~= before.subrange(i + 1, before.len() as int));
                let new_out_map = out@.map_values(|r: TrackRecord| r@);
                assert(out_before.len() == i);
                assert(out_vec_before.len() == i);
                assert(out@ == out_vec_before.push(moved));
                assert forall|j: int| 0 <= j < out@.len() implies new_out_map[j]
                    == shift_record(before[j], at as int) by {
                    if j < i {
                        assert(out@[j] == out_vec_before[j]);
                        assert(new_out_map[j] == out_before[j]);
                        assert(out_before[j] == before.subrange(0, i).map_values(
                            |r: RecordModel| shift_record(r, at as int))[j]);
                        assert(out_before[j] == shift_record(before.subrange(0, i)[j],
                            at as int));
                    } else {
                        assert(out@[j] == moved);
                    }
                };
                assert(new_out_map =~= before.subrange(0, i + 1).map_values(
                    |r: RecordModel| shift_record(r, at as int)));
            }
        }
        proof {
            assert(before.subrange(0, before.len() as int) =~= before);
            assert(out@.map_values(|r: TrackRecord| r@) =~= shift_model(before, at as int));
        }
        self.records = out;
    }

    /// Whether every record's range lies within `[0, bound]`, start
    /// before end — the validity a caller must establish before a
    /// keystroke realigns the tracker.
    pub fn within(&self, bound: usize) -> (r: bool)
        ensures
            r == tracker_within(self@, bound as int),
    {
        let mut i: usize = 0;
        while i < self.records.len()
            invariant
                i <= self@.len(),
                self@.len() == self.records@.len(),
                forall|j: int|
                    0 <= j < i ==> 0 <= (#[trigger] self@[j]).0 <= self@[j].1 <= bound as int,
            decreases self@.len() - i,
        {
            let rec = &self.records[i];
            if rec.start > rec.end || rec.end > bound {
                proof {
                    assert(self@[i as int] == self.records@[i as int]@);
                }
                return false;
            }
            proof {
                assert(self@[i as int] == self.records@[i as int]@);
            }
            i = i + 1;
        }
        true
    }

    /// Whether every record covers exactly one position and no two
    /// records overlap — the mapping invariant a caller must establish
    /// before a keystroke records into the tracker.
    pub fn unit_disjoint(&self) -> (r: bool)
        ensures
            r == (tracker_units(self@) && tracker_disjoint(self@)),
    {
        let n = self.records.len();
        let mut i: usize = 0;
        while i < n
            invariant
                n == self@.len(),
                n == self.records@.len(),
                i <= n,
                forall|k: int| 0 <= k < i ==> (#[trigger] self@[k]).1 == self@[k].0 + 1,
                forall|k: int, l: int|
                    #![trigger self@[k], self@[l]]
                    0 <= k < i && 0 <= l < i && k != l ==> !ranges_overlap(
                        self@[k].0,
                        self@[k].1,
                        self@[l].0,
                        self@[l].1,
                    ),
            decreases n - i,
        {
            proof {
                assert(self@[i as int] == self.records@[i as int]@);
            }
            if self.records[i].end <= self.records[i].start
                || self.records[i].end - self.records[i].start != 1 {
                proof {
                    assert(self@[i as int].1 != self@[i as int].0 + 1);
                }
                return false;
            }
            let mut j: usize = 0;
            while j < i
                invariant
                    n == self@.len(),
                    n == self.records@.len(),
                    j <= i < n,
                    self@[i as int].1 == self@[i as int].0 + 1,
                    forall|k: int| 0 <= k < i ==> (#[trigger] self@[k]).1 == self@[k].0 + 1,
                    forall|k: int|
                        0 <= k < j ==> (#[trigger] self@[k]).0 != self@[i as int].0,
                decreases i - j,
            {
                proof {
                    assert(self@[j as int] == self.records@[j as int]@);
                }
                if self.records[j].start == self.records[i].start {
                    proof {
                        assert(ranges_overlap(
                            self@[i as int].0,
                            self@[i as int].1,
                            self@[j as int].0,
                            self@[j as int].1,
                        ));
                        assert(!tracker_disjoint(self@));
                    }
                    return false;
                }
                j = j + 1;
            }
            proof {
                // unit ranges with distinct starts never overlap
                assert forall|k: int, l: int|
                    #![trigger self@[k], self@[l]]
                    0 <= k < i + 1 && 0 <= l < i + 1 && k != l implies !ranges_overlap(
                    self@[k].0,
                    self@[k].1,
                    self@[l].0,
                    self@[l].1,
                ) by {};
            }
            i = i + 1;
        }
        true
    }

    /// Drops every record, as on mode exit.
    pub fn clear(&mut self)
        ensures
            final(self)@ == Seq::<RecordModel>::empty(),
    {
        self.records.clear();
        proof {
            assert(self@ =~= Seq::<RecordModel>::empty());
        }
    }
}

} // verus!
