//! Regions of lines slated for removal, and the record of one line.

use vstd::prelude::*;

verus! {

/// Which opening marker produced a region.
#[derive(Clone, Copy, Debug, PartialEq, Eq, Structural)]
pub enum RegionKind {
    Fix,
    Purge,
    Todo,
}

/// A region that has been opened and not yet closed.
#[derive(Clone, Copy, Debug, PartialEq, Eq, Structural)]
pub struct OpenRegion {
    pub kind: RegionKind,
    /// Index of the line that opened the region.
    pub start: usize,
}

/// A closed region: the lines `start..=end`, both boundary lines included.
#[derive(Clone, Copy, Debug, PartialEq, Eq, Structural)]
pub struct Region {
    pub kind: RegionKind,
    /// Index of the line that opened the region.
    pub start: usize,
    /// Index of the line that closed the region.
    pub end: usize,
}

/// One line of the document, with the decision taken on it so far.
#[derive(Debug)]
pub struct Line {
    /// The line is to be dropped.
    pub ignore: bool,
    pub text: String,
}

/// The mathematical value of a [`Line`].
pub struct LineView {
    pub ignore: bool,
    pub text: Seq<char>,
}

impl View for Line {
    type V = LineView;

    open spec fn view(&self) -> LineView {
        LineView { ignore: self.ignore, text: self.text@ }
    }
}

impl DeepView for Line {
    type V = LineView;

    open spec fn deep_view(&self) -> LineView {
        self@
    }
}

/// Some region of `regions` holds line `i`.
pub open spec fn covers(regions: Seq<Region>, i: int) -> bool {
    exists|k: int| 0 <= k < regions.len() && (#[trigger] regions[k]).start <= i <= regions[k].end
}

/// Every region is a proper range and starts no earlier than the one before
/// it ends.
pub open spec fn well_ordered(regions: Seq<Region>) -> bool {
    &&& forall|k: int| 0 <= k < regions.len() ==> (#[trigger] regions[k]).start <= regions[k].end
    &&& forall|j: int, k: int|
        0 <= j && j + 1 == k && k < regions.len() ==> (#[trigger] regions[j]).end
            <= (#[trigger] regions[k]).start
}

/// The regions before index `k + 1` cover what the regions before `k` cover,
/// and the lines of region `k`.
pub proof fn lemma_covers_take(regions: Seq<Region>, k: int, i: int)
    requires
        0 <= k < regions.len(),
    ensures
        covers(regions.take(k + 1), i) <==> covers(regions.take(k), i) || regions[k].start <= i
            <= regions[k].end,
{
    let wide = regions.take(k + 1);
    let narrow = regions.take(k);
    if covers(wide, i) {
        let w = choose|w: int| 0 <= w < wide.len() && (#[trigger] wide[w]).start <= i <= wide[w].end;
        if w < k {
            assert(narrow[w].start <= i <= narrow[w].end);
        }
    }
    if covers(narrow, i) {
        let w = choose|w: int|
            0 <= w < narrow.len() && (#[trigger] narrow[w]).start <= i <= narrow[w].end;
        assert(wide[w].start <= i <= wide[w].end);
    }
    if regions[k].start <= i <= regions[k].end {
        assert(wide[k].start <= i <= wide[k].end);
    }
}

/// The texts of the lines that are not ignored, in order.
pub open spec fn kept_texts(lines: Seq<LineView>) -> Seq<Seq<char>>
    decreases lines.len(),
{
    if lines.len() == 0 {
        seq![]
    } else if lines.last().ignore {
        kept_texts(lines.drop_last())
    } else {
        kept_texts(lines.drop_last()).push(lines.last().text)
    }
}

} // verus!
