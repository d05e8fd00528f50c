//! Why the regions of a validated run never touch.
//!
//! Validation compares each region with the one before it and lets a region
//! start on the line on which the one before ended. A scan cannot produce
//! such a pair as long as no line fires an opener together with both
//! closers, and this module proves it, by an invariant of the scan.

use vstd::prelude::*;
use crate::pattern::{LineMarks, MarkedLineView};
use crate::region::{well_ordered, OpenRegion, Region, RegionKind};
use crate::scan::{last_after, swallows, Cursor};
use crate::text::{has_token, inline_opener};
use crate::state::StateView;

verus! {

/// The place of a kind in the order in which the openers of a line fire.
pub open spec fn firing_rank(kind: RegionKind) -> int {
    match kind {
        RegionKind::Todo => 0,
        RegionKind::Fix => 1,
        RegionKind::Purge => 2,
    }
}

/// Open regions start on or before line `line`; closed regions are proper
/// ranges that end before it.
pub open spec fn ranged(st: StateView, line: int) -> bool {
    &&& forall|q: int| 0 <= q < st.open.len() ==> (#[trigger] st.open[q]).start <= line
    &&& forall|r: int|
        0 <= r < st.closed.len() ==> (#[trigger] st.closed[r]).start <= st.closed[r].end < line
}

/// The open stack is ordered by start, the oldest at the bottom.
pub open spec fn stack_sorted(st: StateView) -> bool {
    forall|p: int, q: int|
        0 <= p < q < st.open.len() ==> (#[trigger] st.open[p]).start <= (#[trigger] st.open[q]).start
}

/// The open regions that started on line `line` differ in kind, their kinds
/// come before `rank` in firing order, and if one of them is on top, its kind
/// is the one opened last.
pub open spec fn fresh_entries(st: StateView, last: RegionKind, line: int, rank: int) -> bool {
    &&& forall|p: int, q: int|
        0 <= p < q < st.open.len() && (#[trigger] st.open[p]).start == line && (
        #[trigger] st.open[q]).start == line ==> st.open[p].kind != st.open[q].kind
    &&& forall|q: int|
        0 <= q < st.open.len() && (#[trigger] st.open[q]).start == line ==> firing_rank(
            st.open[q].kind,
        ) < rank
    &&& st.open.len() > 0 && st.open.last().start == line ==> st.open.last().kind == last
}

/// Open region `q` cannot be closed next, or a closed region starts after it.
pub open spec fn blocked(st: StateView, last: RegionKind, q: int) -> bool {
    ||| exists|z: int| 0 <= z < st.closed.len() && (#[trigger] st.closed[z]).start > st.open[q].start
    ||| exists|p: int| q < p < st.open.len() && (#[trigger] st.open[p]).start > st.open[q].start
    ||| st.open.last().kind != last
}

/// Every open region that starts where a closed region ends is blocked.
pub open spec fn touching_blocked(st: StateView, last: RegionKind) -> bool {
    forall|q: int, r: int|
        0 <= q < st.open.len() && 0 <= r < st.closed.len() && (#[trigger] st.closed[r]).end == (
        #[trigger] st.open[q]).start ==> blocked(st, last, q)
}

/// Region `z` starts after region `y` and ends no later, and is not the
/// last line of `y` alone.
pub open spec fn lies_inside(closed: Seq<Region>, y: int, z: int) -> bool {
    &&& 0 <= z < closed.len()
    &&& closed[y].start < closed[z].start
    &&& closed[z].end <= closed[y].end
    &&& (closed[z].end < closed[y].end || closed[z].start < closed[z].end)
}

/// Some closed region lies inside region `y`.
pub open spec fn wedged(closed: Seq<Region>, y: int) -> bool {
    exists|z: int| #[trigger] lies_inside(closed, y, z)
}

/// Every closed region that starts where another one ends has a third one
/// inside it.
pub open spec fn touching_wedged(closed: Seq<Region>) -> bool {
    forall|x: int, y: int|
        0 <= x < closed.len() && 0 <= y < closed.len() && x != y && (#[trigger] closed[x]).end == (
        #[trigger] closed[y]).start ==> wedged(closed, y)
}

/// The invariant of the scan on line `line`, once the openers before `rank`
/// in firing order have had their turn and no closer has fired.
#[verifier::opaque]
pub open spec fn scan_inv(st: StateView, last: RegionKind, line: int, rank: int) -> bool {
    &&& ranged(st, line)
    &&& stack_sorted(st)
    &&& fresh_entries(st, last, line, rank)
    &&& touching_blocked(st, last)
    &&& touching_wedged(st.closed)
}

/// An opener whose turn has come keeps the invariant.
pub proof fn lemma_opener_keeps_inv(
    st: StateView,
    last: RegionKind,
    at: usize,
    rank: int,
    kind: RegionKind,
)
    requires
        scan_inv(st, last, at as int, rank),
        rank <= firing_rank(kind),
    ensures
        scan_inv(st.opened(kind, at), kind, at as int, firing_rank(kind) + 1),
{
    reveal(scan_inv);
    let after = st.opened(kind, at);
    let top = st.open.len() as int;
    assert(after.open[top] == OpenRegion { kind, start: at });
    assert forall|q: int, r: int|
        0 <= q < after.open.len() && 0 <= r < after.closed.len() && (
        #[trigger] after.closed[r]).end == (#[trigger] after.open[q]).start implies blocked(
        after,
        kind,
        q,
    ) by {
        if q < top {
            assert(after.open[q] == st.open[q]);
            assert(blocked(st, last, q));
            if exists|z: int|
                0 <= z < st.closed.len() && (#[trigger] st.closed[z]).start > st.open[q].start {
            } else if exists|p: int|
                q < p < st.open.len() && (#[trigger] st.open[p]).start > st.open[q].start {
                let p = choose|p: int|
                    q < p < st.open.len() && (#[trigger] st.open[p]).start > st.open[q].start;
                assert(after.open[p] == st.open[p]);
            } else {
                assert(after.open[top].start > after.open[q].start);
            }
        }
    }
    assert forall|p: int, q: int| 0 <= p < q < after.open.len() implies (
    #[trigger] after.open[p]).start <= (#[trigger] after.open[q]).start by {
        assert(after.open[p] == st.open[p]);
        if q < top {
            assert(after.open[q] == st.open[q]);
        }
    }
    assert forall|q: int| 0 <= q < after.open.len() implies (#[trigger] after.open[q]).start
        <= at by {
        if q < top {
            assert(after.open[q] == st.open[q]);
        }
    }
    assert forall|p: int, q: int|
        0 <= p < q < after.open.len() && (#[trigger] after.open[p]).start == at && (
        #[trigger] after.open[q]).start == at implies after.open[p].kind != after.open[q].kind by {
        assert(after.open[p] == st.open[p]);
        if q < top {
            assert(after.open[q] == st.open[q]);
        }
    }
    assert forall|q: int|
        0 <= q < after.open.len() && (#[trigger] after.open[q]).start == at implies firing_rank(
        after.open[q].kind,
    ) < firing_rank(kind) + 1 by {
        if q < top {
            assert(after.open[q] == st.open[q]);
        }
    }
}

/// A line on which no closer fires hands the invariant on to the next line.
pub proof fn lemma_next_line_keeps_inv(st: StateView, last: RegionKind, at: usize, rank: int)
    requires
        scan_inv(st, last, at as int, rank),
    ensures
        scan_inv(st, last, at + 1, 0),
{
    reveal(scan_inv);
}

/// The invariant speaks of the regions only.
pub proof fn lemma_inv_of_regions(
    st: StateView,
    other: StateView,
    last: RegionKind,
    line: int,
    rank: int,
)
    requires
        scan_inv(st, last, line, rank),
        other.open == st.open,
        other.closed == st.closed,
    ensures
        scan_inv(other, last, line, rank),
{
    reveal(scan_inv);
}

/// The first closer of a line hands the invariant on to the next line, if
/// it is accepted.
pub proof fn lemma_closer_keeps_inv(st: StateView, last: RegionKind, at: usize, rank: int)
    requires
        scan_inv(st, last, at as int, rank),
        st.close_region(last, at).1 is Ok,
    ensures
        scan_inv(st.close_region(last, at).0, last, at + 1, 0),
{
    if st.open.len() > 0 {
        lemma_pop_keeps_inv(st, last, at, rank);
    } else {
        lemma_turn_keeps_inv(st, last, at, at as int, rank);
        lemma_next_line_keeps_inv(st.close_region(last, at).0, last, at, rank);
    }
}

/// The closer that takes the top of the open stack.
proof fn lemma_pop_keeps_inv(st: StateView, last: RegionKind, at: usize, rank: int)
    requires
        scan_inv(st, last, at as int, rank),
        st.open.len() > 0,
        st.open.last().kind == last,
    ensures
        scan_inv(st.close_region(last, at).0, last, at + 1, 0),
{
    reveal(scan_inv);
    let after = st.close_region(last, at).0;
    let top = st.open.len() - 1;
    let taken = st.open[top];
    let region = Region { kind: taken.kind, start: taken.start, end: at };
    assert(after.closed == seq![region] + st.closed);
    assert(after.open == st.open.drop_last());
    assert(after.closed[0] == region);
    assert forall|r: int| 1 <= r < after.closed.len() implies #[trigger] after.closed[r]
        == st.closed[r - 1] by {}
    assert forall|q: int| 0 <= q < after.open.len() implies #[trigger] after.open[q]
        == st.open[q] by {}
    // Closed regions that touch.
    assert forall|x: int, y: int|
        0 <= x < after.closed.len() && 0 <= y < after.closed.len() && x != y && (
        #[trigger] after.closed[x]).end == (#[trigger] after.closed[y]).start implies wedged(
        after.closed,
        y,
    ) by {
        if x >= 1 && y >= 1 {
            assert(st.closed[x - 1].end == st.closed[y - 1].start);
            assert(wedged(st.closed, y - 1));
            let z = choose|z: int| #[trigger] lies_inside(st.closed, y - 1, z);
            assert(after.closed[z + 1] == st.closed[z]);
            assert(lies_inside(after.closed, y, z + 1));
        } else if y == 0 {
            assert(st.closed[x - 1].end == st.open[top].start);
            assert(blocked(st, last, top));
            let z = choose|z: int|
                0 <= z < st.closed.len() && (#[trigger] st.closed[z]).start > st.open[top].start;
            assert(after.closed[z + 1] == st.closed[z]);
            assert(lies_inside(after.closed, 0, z + 1));
        } else {
            assert(st.closed[y - 1].start < at);
        }
    }
    // Open regions that start where a closed region ends.
    assert forall|q: int, r: int|
        0 <= q < after.open.len() && 0 <= r < after.closed.len() && (
        #[trigger] after.closed[r]).end == (#[trigger] after.open[q]).start implies blocked(
        after,
        last,
        q,
    ) by {
        if r >= 1 {
            assert(st.closed[r - 1].end == st.open[q].start);
            assert(blocked(st, last, q));
            if exists|z: int|
                0 <= z < st.closed.len() && (#[trigger] st.closed[z]).start > st.open[q].start {
                let z = choose|z: int|
                    0 <= z < st.closed.len() && (#[trigger] st.closed[z]).start > st.open[q].start;
                assert(after.closed[z + 1] == st.closed[z]);
            } else {
                let p = choose|p: int|
                    q < p < st.open.len() && (#[trigger] st.open[p]).start > st.open[q].start;
                if p < top {
                    assert(after.open[p] == st.open[p]);
                } else {
                    assert(after.closed[0].start > after.open[q].start);
                }
            }
        } else {
            // The region just closed ends on this line, and `q` started on it.
            assert(st.open[q].start == at);
            assert(st.open[top - 1].start == at);
            assert(st.open[top].start == at);
            assert(after.open.last() == st.open[top - 1]);
        }
    }
}

/// The closer that finds nothing open and turns the closed list by one.
proof fn lemma_turn_keeps_inv(st: StateView, last: RegionKind, at: usize, line: int, rank: int)
    requires
        scan_inv(st, last, line, rank),
        st.open.len() == 0,
        st.closed.len() > 0,
        st.closed.last().kind == last,
    ensures
        scan_inv(st.close_region(last, at).0, last, line, rank),
{
    reveal(scan_inv);
    let after = st.close_region(last, at).0;
    let m = st.closed.len() as int;
    assert(after.closed == seq![st.closed.last()] + st.closed.drop_last());
    assert(after.closed[0] == st.closed[m - 1]);
    assert forall|r: int| 1 <= r < m implies #[trigger] after.closed[r] == st.closed[r - 1] by {}
    assert forall|x: int, y: int|
        0 <= x < after.closed.len() && 0 <= y < after.closed.len() && x != y && (
        #[trigger] after.closed[x]).end == (#[trigger] after.closed[y]).start implies wedged(
        after.closed,
        y,
    ) by {
        let ox = if x == 0 { m - 1 } else { x - 1 };
        let oy = if y == 0 { m - 1 } else { y - 1 };
        assert(st.closed[ox].end == st.closed[oy].start);
        assert(wedged(st.closed, oy));
        let z = choose|z: int| #[trigger] lies_inside(st.closed, oy, z);
        let nz = if z == m - 1 { 0 } else { z + 1 };
        assert(after.closed[nz] == st.closed[z]);
        assert(lies_inside(after.closed, y, nz));
    }
    assert forall|r: int| 0 <= r < after.closed.len() implies (#[trigger] after.closed[r]).start
        <= after.closed[r].end < line by {
        let or = if r == 0 { m - 1 } else { r - 1 };
        assert(after.closed[r] == st.closed[or]);
    }
}

/// No region of `st` starts on line `line` or behind it.
pub open spec fn settled(st: StateView, line: int) -> bool {
    &&& forall|q: int| 0 <= q < st.open.len() ==> (#[trigger] st.open[q]).start < line
    &&& forall|r: int| 0 <= r < st.closed.len() ==> (#[trigger] st.closed[r]).start < line
}

/// On a line that has fired no opener, no region has started, and a closer
/// does not change that.
pub proof fn lemma_closer_settled(st: StateView, last: RegionKind, at: usize)
    requires
        scan_inv(st, last, at as int, 0),
    ensures
        settled(st, at as int),
        settled(st.close_region(last, at).0, at as int),
{
    reveal(scan_inv);
    let after = st.close_region(last, at).0;
    assert forall|q: int| 0 <= q < st.open.len() implies (#[trigger] st.open[q]).start < at by {
        assert(firing_rank(st.open[q].kind) >= 0);
    }
    assert forall|q: int| 0 <= q < after.open.len() implies (#[trigger] after.open[q]).start
        < at by {
        assert(after.open[q] == st.open[q]);
    }
    assert forall|r: int| 0 <= r < after.closed.len() implies (#[trigger] after.closed[r]).start
        < at by {
        if st.open.len() > 0 {
            if st.open.last().kind != last {
                assert(after.closed[r] == st.closed[r]);
            } else if r > 0 {
                assert(after.closed[r] == st.closed[r - 1]);
            } else {
                assert(after.closed[r].start == st.open[st.open.len() - 1].start);
            }
        } else if st.closed.len() > 0 {
            if st.closed.last().kind != last {
                assert(after.closed[r] == st.closed[r]);
            } else if r > 0 {
                assert(after.closed[r] == st.closed[r - 1]);
            } else {
                assert(after.closed[r] == st.closed[st.closed.len() - 1]);
            }
        }
    }
}

/// The second closer of a line that has fired no opener keeps the
/// invariant, if it is accepted.
pub proof fn lemma_second_closer_keeps_inv(st: StateView, last: RegionKind, at: usize)
    requires
        scan_inv(st, last, at + 1, 0),
        settled(st, at as int),
        st.close_region(last, at).1 is Ok,
    ensures
        scan_inv(st.close_region(last, at).0, last, at + 1, 0),
{
    if st.open.len() == 0 {
        lemma_turn_keeps_inv(st, last, at, at + 1, 0);
    } else {
        reveal(scan_inv);
        let after = st.close_region(last, at).0;
        let top = st.open.len() - 1;
        let taken = st.open[top];
        let region = Region { kind: taken.kind, start: taken.start, end: at };
        assert(after.closed == seq![region] + st.closed);
        assert(after.open == st.open.drop_last());
        assert(after.closed[0] == region);
        assert forall|r: int| 1 <= r < after.closed.len() implies #[trigger] after.closed[r]
            == st.closed[r - 1] by {}
        assert forall|q: int| 0 <= q < after.open.len() implies #[trigger] after.open[q]
            == st.open[q] by {}
        assert forall|x: int, y: int|
            0 <= x < after.closed.len() && 0 <= y < after.closed.len() && x != y && (
            #[trigger] after.closed[x]).end == (#[trigger] after.closed[y]).start implies wedged(
            after.closed,
            y,
        ) by {
            if x >= 1 && y >= 1 {
                assert(st.closed[x - 1].end == st.closed[y - 1].start);
                assert(wedged(st.closed, y - 1));
                let z = choose|z: int| #[trigger] lies_inside(st.closed, y - 1, z);
                assert(after.closed[z + 1] == st.closed[z]);
                assert(lies_inside(after.closed, y, z + 1));
            } else if y == 0 {
                assert(st.closed[x - 1].end == st.open[top].start);
                assert(blocked(st, last, top));
                let z = choose|z: int|
                    0 <= z < st.closed.len() && (#[trigger] st.closed[z]).start
                        > st.open[top].start;
                assert(after.closed[z + 1] == st.closed[z]);
                assert(st.closed[z].start < at);
                assert(lies_inside(after.closed, 0, z + 1));
            } else {
                assert(st.closed[y - 1].start < at);
            }
        }
        assert forall|q: int, r: int|
            0 <= q < after.open.len() && 0 <= r < after.closed.len() && (
            #[trigger] after.closed[r]).end == (#[trigger] after.open[q]).start implies blocked(
            after,
            last,
            q,
        ) by {
            if r >= 1 {
                assert(st.closed[r - 1].end == st.open[q].start);
                assert(blocked(st, last, q));
                if exists|z: int|
                    0 <= z < st.closed.len() && (#[trigger] st.closed[z]).start
                        > st.open[q].start {
                    let z = choose|z: int|
                        0 <= z < st.closed.len() && (#[trigger] st.closed[z]).start
                            > st.open[q].start;
                    assert(after.closed[z + 1] == st.closed[z]);
                } else {
                    let p = choose|p: int|
                        q < p < st.open.len() && (#[trigger] st.open[p]).start > st.open[q].start;
                    if p < top {
                        assert(after.open[p] == st.open[p]);
                    } else {
                        assert(after.closed[0].start > after.open[q].start);
                    }
                }
            } else {
                assert(st.open[q].start < at);
            }
        }
    }
}

/// The line does not fire an opener together with both closers.
pub open spec fn closers_apart(marks: LineMarks) -> bool {
    !(marks.closes_purge && marks.closes_block && (marks.opens_todo || marks.opens_fix
        || marks.opens_purge))
}

/// A scanned line that does not fire an opener with both closers hands the
/// invariant on to the next line.
pub proof fn lemma_line_keeps_inv(
    st: StateView,
    cursor: Cursor,
    at: usize,
    marks: LineMarks,
    text: Seq<char>,
)
    requires
        scan_inv(st, cursor.last_opened, at as int, 0),
        closers_apart(marks),
        st.scan_line(cursor, at, marks, text).2 is Ok,
    ensures
        scan_inv(
            st.scan_line(cursor, at, marks, text).0,
            st.scan_line(cursor, at, marks, text).1.last_opened,
            at + 1,
            0,
        ),
{
    let (next, moved, verdict) = st.scan_line(cursor, at, marks, text);
    let last = cursor.last_opened;
    if swallows(cursor, marks, text) || has_token(text, inline_opener()) {
        lemma_next_line_keeps_inv(st, last, at, 0);
        lemma_inv_of_regions(st, next, last, at + 1, 0);
    } else {
        let s1 = st.opened_if(marks.opens_todo, RegionKind::Todo, at);
        let l1 = if marks.opens_todo { RegionKind::Todo } else { last };
        let r1: int = if marks.opens_todo { 1 } else { 0 };
        if marks.opens_todo {
            lemma_opener_keeps_inv(st, last, at, 0, RegionKind::Todo);
        }
        let s2 = s1.opened_if(marks.opens_fix, RegionKind::Fix, at);
        let l2 = if marks.opens_fix { RegionKind::Fix } else { l1 };
        let r2: int = if marks.opens_fix { 2 } else { r1 };
        if marks.opens_fix {
            lemma_opener_keeps_inv(s1, l1, at, r1, RegionKind::Fix);
        }
        let s3 = s2.opened_if(marks.opens_purge, RegionKind::Purge, at);
        let l3 = if marks.opens_purge { RegionKind::Purge } else { l2 };
        let r3: int = if marks.opens_purge { 3 } else { r2 };
        if marks.opens_purge {
            lemma_opener_keeps_inv(s2, l2, at, r2, RegionKind::Purge);
        }
        assert(l3 == last_after(last, marks));
        assert(scan_inv(s3, l3, at as int, r3));
        let after = st.track_line(last, marks, at).0;
        if marks.closes_purge && marks.closes_block {
            let first = s3.close_region(l3, at).0;
            lemma_closer_keeps_inv(s3, l3, at, r3);
            lemma_closer_settled(s3, l3, at);
            lemma_second_closer_keeps_inv(first, l3, at);
            assert(after == first.close_region(l3, at).0);
        } else if marks.closes_purge || marks.closes_block {
            lemma_closer_keeps_inv(s3, l3, at, r3);
            assert(after == s3.close_region(l3, at).0);
        } else {
            lemma_next_line_keeps_inv(s3, l3, at, r3);
            assert(after == s3);
        }
        lemma_inv_of_regions(after, next, l3, at + 1, 0);
    }
}

/// A scan that succeeds on lines of which none fires an opener with both
/// closers keeps the invariant to the end.
pub proof fn lemma_scan_keeps_inv(st: StateView, cursor: Cursor, doc: Seq<MarkedLineView>, k: int)
    requires
        0 <= k <= doc.len() <= usize::MAX,
        scan_inv(st, cursor.last_opened, k, 0),
        forall|i: int| k <= i < doc.len() ==> closers_apart((#[trigger] doc[i]).marks),
        st.scan_from(cursor, doc, k).1 is Ok,
    ensures
        touching_wedged(st.scan_from(cursor, doc, k).0.closed),
    decreases doc.len() - k,
{
    if k < doc.len() {
        let (next, moved, verdict) = st.scan_line(cursor, k as usize, doc[k].marks, doc[k].text);
        lemma_line_keeps_inv(st, cursor, k as usize, doc[k].marks, doc[k].text);
        lemma_scan_keeps_inv(next, moved, doc, k + 1);
    } else {
        reveal(scan_inv);
    }
}

/// In a well ordered list, a region ends no later than any later one starts.
pub proof fn lemma_well_ordered_apart(regions: Seq<Region>, j: int, k: int)
    requires
        well_ordered(regions),
        0 <= j < k < regions.len(),
    ensures
        regions[j].end <= regions[k].start,
    decreases k - j,
{
    if j + 1 < k {
        lemma_well_ordered_apart(regions, j, k - 1);
        assert(regions[k - 1].start <= regions[k - 1].end);
        assert(regions[k - 1].end <= regions[k].start);
    }
}

/// The regions of a validated run, taken in order of their start, do not
/// overlap and do not touch: each ends before the line on which the next one
/// starts.
///
/// This holds of every document of which no line fires an opener together
/// with both closers. Such a line can close, on one line, the region it has
/// opened and one opened before it, and a later closer that finds nothing
/// open can then bring the two into an order that validation accepts.
pub proof fn lemma_validated_regions_disjoint(doc: Seq<MarkedLineView>)
    requires
        doc.len() <= usize::MAX,
        forall|i: int| 0 <= i < doc.len() ==> closers_apart((#[trigger] doc[i]).marks),
        StateView::empty().scanned(doc).1 is Ok,
        StateView::empty().scanned(doc).0.validated().1 is Ok,
    ensures
        ({
            let regions = StateView::empty().scanned(doc).0.validated().0.closed;
            forall|j: int, k: int|
                0 <= j && j + 1 == k && k < regions.len() ==> {
                    &&& (#[trigger] regions[j]).start < (#[trigger] regions[k]).start
                    &&& regions[j].end < regions[k].start
                }
        }),
{
    let scanned = StateView::empty().scanned(doc).0;
    let regions = scanned.validated().0.closed;
    assert(scan_inv(StateView::empty(), Cursor::start().last_opened, 0, 0)) by {
        reveal(scan_inv);
    }
    assert(StateView::empty().scan_from(Cursor::start(), doc, 0).1 is Ok);
    lemma_scan_keeps_inv(StateView::empty(), Cursor::start(), doc, 0);
    let m = scanned.closed.len() as int;
    assert(regions == scanned.closed.reverse());
    assert forall|j: int, k: int| 0 <= j && j + 1 == k && k < regions.len() implies (
    #[trigger] regions[j]).end < (#[trigger] regions[k]).start by {
        if regions[j].end == regions[k].start {
            let x = m - 1 - j;
            let y = m - 1 - k;
            assert(scanned.closed[x] == regions[j]);
            assert(scanned.closed[y] == regions[k]);
            assert(wedged(scanned.closed, y));
            let z = choose|z: int| #[trigger] lies_inside(scanned.closed, y, z);
            let p = m - 1 - z;
            assert(regions[p] == scanned.closed[z]);
            if p < j {
                lemma_well_ordered_apart(regions, p, j);
            } else if p > k {
                lemma_well_ordered_apart(regions, k, p);
            }
            assert(false);
        }
    }
}

} // verus!
