use crate::fraction::{lemma_le_trans, lemma_lt_le, Fraction};
use vstd::prelude::*;

verus! {

/// The part `[start, end]` of an octant's angular sweep that one opaque
/// cell hides, with `0 <= start <= end <= 1`.
#[derive(Clone, Copy, Debug)]
pub struct Shadow {
    pub start: Fraction,
    pub end: Fraction,
}

impl Shadow {
    /// Both ends are fractions, in order, and the interval lies in `[0, 1]`.
    pub open spec fn wf(&self) -> bool {
        &&& self.start.wf()
        &&& self.end.wf()
        &&& self.start.spec_le(&self.end)
        &&& self.end.num <= self.end.den
    }

    /// `self` covers `other` from end to end.
    pub open spec fn spec_contains(&self, other: &Shadow) -> bool {
        self.start.spec_le(&other.start) && other.end.spec_le(&self.end)
    }

    /// The interval is the whole sweep `[0, 1]`.
    pub open spec fn spec_is_whole(&self) -> bool {
        self.start.spec_is_zero() && self.end.spec_is_one()
    }

    /// The interval `[start, end]`.
    pub fn new(start: Fraction, end: Fraction) -> (s: Shadow)
        requires
            start.wf(),
            end.wf(),
            start.spec_le(&end),
            end.num <= end.den,
        ensures
            s.start == start,
            s.end == end,
            s.wf(),
    {
        Shadow { start: start, end: end }
    }

    /// Whether `self` covers `other` from end to end.
    pub fn contains(self, other: &Shadow) -> (r: bool)
        ensures
            r == self.spec_contains(other),
    {
        self.start.le(&other.start) && other.end.le(&self.end)
    }
}

/// The intervals are well formed and each ends no later than the next one
/// starts, so they are in ascending order and do not overlap.
pub open spec fn line_wf(line: Seq<Shadow>) -> bool {
    &&& forall|i: int| 0 <= i < line.len() ==> (#[trigger] line[i]).wf()
    &&& forall|i: int, j: int|
        0 <= i < j < line.len() ==> (#[trigger] line[i]).end.spec_le(&(#[trigger] line[j]).start)
}

/// The line is the single interval `[0, 1]`.
pub open spec fn line_is_full(line: Seq<Shadow>) -> bool {
    line.len() == 1 && line[0].spec_is_whole()
}

/// Some interval of the line covers `projection` from end to end.
pub open spec fn line_covers(line: Seq<Shadow>, projection: Shadow) -> bool {
    exists|i: int| 0 <= i < line.len() && (#[trigger] line[i]).spec_contains(&projection)
}

/// The first position at or after `from` whose interval does not start
/// before `start`; the length of the line if there is none.
pub open spec fn first_not_before(line: Seq<Shadow>, start: Fraction, from: int) -> int
    decreases line.len() - from,
{
    if from < 0 || from >= line.len() || start.spec_le(&line[from].start) {
        from
    } else {
        first_not_before(line, start, from + 1)
    }
}

/// Where an interval that starts at `start` goes into the line.
pub open spec fn insertion_index(line: Seq<Shadow>, start: Fraction) -> int {
    first_not_before(line, start, 0)
}

/// The interval before the insertion index reaches past the start of `shadow`.
pub open spec fn overlaps_prev(line: Seq<Shadow>, shadow: Shadow) -> bool {
    let i = insertion_index(line, shadow.start);
    i > 0 && shadow.start.spec_lt(&line[i - 1].end)
}

/// The interval at the insertion index starts before the end of `shadow`.
pub open spec fn overlaps_next(line: Seq<Shadow>, shadow: Shadow) -> bool {
    let i = insertion_index(line, shadow.start);
    i < line.len() && line[i].start.spec_lt(&shadow.end)
}

/// The line after `shadow` has been added to it.
///
/// Intervals that only touch are not merged: both comparisons are strict.
pub open spec fn merged(line: Seq<Shadow>, shadow: Shadow) -> Seq<Shadow> {
    let i = insertion_index(line, shadow.start);
    if overlaps_prev(line, shadow) && overlaps_next(line, shadow) {
        line.update(i - 1, Shadow { start: line[i - 1].start, end: line[i].end }).remove(i)
    } else if overlaps_prev(line, shadow) {
        line.update(i - 1, Shadow { start: line[i - 1].start, end: shadow.end })
    } else if overlaps_next(line, shadow) {
        line.update(i, Shadow { start: shadow.start, end: line[i].end })
    } else {
        line.insert(i, shadow)
    }
}

/// The insertion index lies in the line or at its end, every interval
/// before it starts before `start`, and the interval at it does not.
pub proof fn lemma_first_not_before(line: Seq<Shadow>, start: Fraction, from: int)
    requires
        0 <= from <= line.len(),
    ensures
        from <= first_not_before(line, start, from) <= line.len(),
        forall|j: int|
            from <= j < first_not_before(line, start, from) ==> (#[trigger] line[j]).start.spec_lt(
                &start,
            ),
        first_not_before(line, start, from) < line.len() ==> start.spec_le(
            &line[first_not_before(line, start, from)].start,
        ),
    decreases line.len() - from,
{
    if from < line.len() && !start.spec_le(&line[from].start) {
        lemma_first_not_before(line, start, from + 1);
    }
}

/// Adding a well-formed interval to a well-formed line gives a well-formed
/// line: the intervals stay in ascending order and do not overlap.
pub proof fn lemma_merged_wf(line: Seq<Shadow>, shadow: Shadow)
    requires
        line_wf(line),
        shadow.wf(),
    ensures
        line_wf(merged(line, shadow)),
{
    let i = insertion_index(line, shadow.start);
    let out = merged(line, shadow);
    lemma_first_not_before(line, shadow.start, 0);
    let prev = overlaps_prev(line, shadow);
    let next = overlaps_next(line, shadow);
    // Every interval before the index ends no later than `shadow` starts,
    // unless the one just before the index overlaps it.
    assert forall|k: int| 0 <= k < i && !prev implies (#[trigger] line[k]).end.spec_le(
        &shadow.start,
    ) by {
        if k < i - 1 {
            assert(line[k].end.spec_le(&line[i - 1].start));
            lemma_le_trans(line[k].end, line[i - 1].start, line[i - 1].end);
            lemma_le_trans(line[k].end, line[i - 1].end, shadow.start);
        }
    }
    // Every interval from the index on starts no earlier than `shadow` ends,
    // unless the one at the index overlaps it.
    assert forall|m: int| i <= m < line.len() && !next implies shadow.end.spec_le(
        &(#[trigger] line[m]).start,
    ) by {
        if m > i {
            assert(line[i].end.spec_le(&line[m].start));
            lemma_le_trans(shadow.end, line[i].start, line[i].end);
            lemma_le_trans(shadow.end, line[i].end, line[m].start);
        }
    }
    if prev && next {
        let joined = Shadow { start: line[i - 1].start, end: line[i].end };
        assert(line[i - 1].end.spec_le(&line[i].start));
        lemma_le_trans(line[i - 1].start, line[i - 1].end, line[i].start);
        lemma_le_trans(line[i - 1].start, line[i].start, line[i].end);
        assert(joined.wf());
        assert forall|k: int| 0 <= k < out.len() implies (#[trigger] out[k]).wf() by {
            if k < i - 1 {
                assert(out[k] == line[k]);
            } else if k == i - 1 {
                assert(out[k] == joined);
            } else {
                assert(out[k] == line[k + 1]);
            }
        }
        assert forall|a: int, b: int| 0 <= a < b < out.len() implies (#[trigger] out[a]).end.spec_le(
            &(#[trigger] out[b]).start,
        ) by {
            let a0 = if a < i { a } else { a + 1 };
            let b0 = if b < i { b } else { b + 1 };
            if a == i - 1 {
                assert(out[a].end == line[i].end);
                assert(out[b] == line[b0]);
                assert(line[i].end.spec_le(&line[b0].start));
            } else if b == i - 1 {
                assert(out[b].start == line[i - 1].start);
                assert(out[a] == line[a0]);
                assert(line[a0].end.spec_le(&line[i - 1].start));
            } else {
                assert(out[a] == line[a0]);
                assert(out[b] == line[b0]);
                assert(line[a0].end.spec_le(&line[b0].start));
            }
        }
    } else if prev {
        let grown = Shadow { start: line[i - 1].start, end: shadow.end };
        assert(line[i - 1].start.spec_lt(&shadow.start));
        lemma_lt_le(line[i - 1].start, shadow.start);
        lemma_le_trans(line[i - 1].start, shadow.start, shadow.end);
        assert(grown.wf());
        assert forall|k: int| 0 <= k < out.len() implies (#[trigger] out[k]).wf() by {
            if k != i - 1 {
                assert(out[k] == line[k]);
            }
        }
        assert forall|a: int, b: int| 0 <= a < b < out.len() implies (#[trigger] out[a]).end.spec_le(
            &(#[trigger] out[b]).start,
        ) by {
            if a == i - 1 {
                assert(out[b] == line[b]);
                assert(shadow.end.spec_le(&line[b].start));
            } else if b == i - 1 {
                assert(out[a] == line[a]);
                assert(line[a].end.spec_le(&line[i - 1].start));
            } else {
                assert(out[a] == line[a]);
                assert(out[b] == line[b]);
                assert(line[a].end.spec_le(&line[b].start));
            }
        }
    } else if next {
        let grown = Shadow { start: shadow.start, end: line[i].end };
        lemma_le_trans(shadow.start, line[i].start, line[i].end);
        assert(line[i].wf());
        assert(grown.wf());
        assert forall|k: int| 0 <= k < out.len() implies (#[trigger] out[k]).wf() by {
            if k != i {
                assert(out[k] == line[k]);
            }
        }
        assert forall|a: int, b: int| 0 <= a < b < out.len() implies (#[trigger] out[a]).end.spec_le(
            &(#[trigger] out[b]).start,
        ) by {
            if b == i {
                assert(out[a] == line[a]);
                assert(line[a].end.spec_le(&shadow.start));
            } else if a == i {
                assert(out[b] == line[b]);
                assert(line[i].end.spec_le(&line[b].start));
            } else {
                assert(out[a] == line[a]);
                assert(out[b] == line[b]);
                assert(line[a].end.spec_le(&line[b].start));
            }
        }
    } else {
        assert forall|k: int| 0 <= k < out.len() implies (#[trigger] out[k]).wf() by {
            if k < i {
                assert(out[k] == line[k]);
            } else if k > i {
                assert(out[k] == line[k - 1]);
            }
        }
        assert forall|a: int, b: int| 0 <= a < b < out.len() implies (#[trigger] out[a]).end.spec_le(
            &(#[trigger] out[b]).start,
        ) by {
            if b == i {
                assert(out[a] == line[a]);
                assert(line[a].end.spec_le(&shadow.start));
            } else if a == i {
                assert(out[b] == line[b - 1]);
                assert(shadow.end.spec_le(&line[b - 1].start));
            } else {
                let a0 = if a < i { a } else { a - 1 };
                let b0 = if b < i { b } else { b - 1 };
                assert(out[a] == line[a0]);
                assert(out[b] == line[b0]);
                assert(line[a0].end.spec_le(&line[b0].start));
            }
        }
    }
}

/// Adding an interval that the line does not cover takes nothing away:
/// what the line covered before, it covers after.
pub proof fn lemma_merged_keeps_cover(line: Seq<Shadow>, shadow: Shadow, projection: Shadow)
    requires
        line_wf(line),
        shadow.wf(),
        !line_covers(line, shadow),
        line_covers(line, projection),
    ensures
        line_covers(merged(line, shadow), projection),
{
    let i = insertion_index(line, shadow.start);
    let out = merged(line, shadow);
    lemma_first_not_before(line, shadow.start, 0);
    let j = choose|j: int| 0 <= j < line.len() && (#[trigger] line[j]).spec_contains(&projection);
    let prev = overlaps_prev(line, shadow);
    let next = overlaps_next(line, shadow);
    if prev && next {
        let joined = Shadow { start: line[i - 1].start, end: line[i].end };
        assert(line[i - 1].wf() && line[i].wf());
        assert(line[i - 1].end.spec_le(&line[i].start));
        if j < i - 1 {
            assert(out[j] == line[j]);
        } else if j == i - 1 {
            lemma_le_trans(line[i - 1].end, line[i].start, line[i].end);
            lemma_le_trans(projection.end, line[i - 1].end, line[i].end);
            assert(out[i - 1] == joined);
            assert(out[i - 1].spec_contains(&projection));
        } else if j == i {
            lemma_le_trans(line[i - 1].start, line[i - 1].end, line[i].start);
            lemma_le_trans(line[i - 1].start, line[i].start, projection.start);
            assert(out[i - 1] == joined);
            assert(out[i - 1].spec_contains(&projection));
        } else {
            assert(out[j - 1] == line[j]);
        }
    } else if prev {
        if j == i - 1 {
            // the interval before the index starts first and does not
            // cover the new one, so the new one ends later
            assert(line[i - 1].start.spec_lt(&shadow.start));
            assert(!line[i - 1].spec_contains(&shadow));
            assert(line[i - 1].wf());
            lemma_le_trans(projection.end, line[i - 1].end, shadow.end);
            assert(out[i - 1].spec_contains(&projection));
        } else {
            assert(out[j] == line[j]);
        }
    } else if next {
        if j == i {
            assert(line[i].wf());
            lemma_le_trans(shadow.start, line[i].start, projection.start);
            assert(out[i].spec_contains(&projection));
        } else {
            assert(out[j] == line[j]);
        }
    } else {
        if j < i {
            assert(out[j] == line[j]);
        } else {
            assert(out[j + 1] == line[j]);
        }
    }
}

/// A full line covers every well-formed interval.
pub proof fn lemma_full_line_covers(line: Seq<Shadow>, projection: Shadow)
    requires
        line_is_full(line),
        projection.wf(),
    ensures
        line_covers(line, projection),
{
    let whole = line[0];
    let (n, d) = (projection.end.num as int, projection.end.den as int);
    let e = whole.end.num as int;
    assert(n * e <= e * d) by (nonlinear_arith)
        requires
            0 <= n <= d,
            0 <= e,
    ;
    assert(whole.spec_contains(&projection));
}

/// The occlusion gathered while one octant is scanned outward: intervals in
/// ascending order, no two of them overlapping.
pub struct ShadowLine {
    pub shadows: Vec<Shadow>,
}

impl ShadowLine {
    /// The intervals are well formed, ascending and do not overlap.
    pub open spec fn wf(&self) -> bool {
        line_wf(self.shadows@)
    }

    /// A line without any shadow.
    pub fn new() -> (line: ShadowLine)
        ensures
            line.shadows@ == Seq::<Shadow>::empty(),
            line.wf(),
    {
        ShadowLine { shadows: Vec::new() }
    }

    /// Whether the line is the single interval `[0, 1]`.
    pub fn is_full_shadow(&self) -> (r: bool)
        ensures
            r == line_is_full(self.shadows@),
    {
        self.shadows.len() == 1 && self.shadows[0].start.is_zero() && self.shadows[0].end.is_one()
    }

    /// Whether some interval of the line covers `projection` from end to end.
    pub fn is_in_shadow(&self, projection: &Shadow) -> (r: bool)
        ensures
            r == line_covers(self.shadows@, *projection),
    {
        let mut i: usize = 0;
        while i < self.shadows.len()
            invariant
                i <= self.shadows.len(),
                forall|j: int| 0 <= j < i ==> !(#[trigger] self.shadows@[j]).spec_contains(projection),
            decreases self.shadows.len() - i,
        {
            if self.shadows[i].contains(projection) {
                return true;
            }
            i = i + 1;
        }
        false
    }

    /// Adds `shadow` to the line, merging it with a neighbour that it overlaps.
    pub fn add(&mut self, shadow: Shadow)
        requires
            old(self).wf(),
            shadow.wf(),
        ensures
            final(self).shadows@ == merged(old(self).shadows@, shadow),
            final(self).wf(),
    {
        let ghost line = self.shadows@;
        let mut index: usize = 0;
        while index < self.shadows.len() && self.shadows[index].start.lt(&shadow.start)
            invariant
                index <= self.shadows.len(),
                self.shadows@ == line,
                insertion_index(line, shadow.start) == first_not_before(
                    line,
                    shadow.start,
                    index as int,
                ),
            decreases self.shadows.len() - index,
        {
            index = index + 1;
        }
        proof {
            lemma_merged_wf(line, shadow);
        }
        let overlapping_prev = index > 0 && shadow.start.lt(&self.shadows[index - 1].end);
        let overlapping_next = index < self.shadows.len() && self.shadows[index].start.lt(
            &shadow.end,
        );
        if overlapping_next {
            if overlapping_prev {
                let next = self.shadows[index];
                self.shadows[index - 1].end = next.end;
                self.shadows.remove(index);
            } else {
                self.shadows[index].start = shadow.start;
            }
        } else {
            if overlapping_prev {
                self.shadows[index - 1].end = shadow.end;
            } else {
                self.shadows.insert(index, shadow);
            }
        }
    }
}

} // verus!
