//! The state of one run: the region tracker and the lines read so far.

use vstd::prelude::*;
use crate::error::FilterError;
use crate::region::{
    covers, lemma_covers_take, well_ordered, Line, LineView, OpenRegion, Region, RegionKind,
};
use crate::text::{strip_inline, strip_inline_spans};

verus! {

/// The region tracker together with the lines of the document.
///
/// `open` is the stack of regions not yet closed, the last opened on top.
/// `closed` lists the closed regions, the last closed first, until
/// [`State::validate_multiline`] turns it round.
#[derive(Debug)]
pub struct State {
    pub open: Vec<OpenRegion>,
    pub closed: Vec<Region>,
    pub lines: Vec<Line>,
}

/// The mathematical value of a [`State`].
pub struct StateView {
    pub open: Seq<OpenRegion>,
    pub closed: Seq<Region>,
    pub lines: Seq<LineView>,
}

impl View for State {
    type V = StateView;

    open spec fn view(&self) -> StateView {
        StateView { open: self.open@, closed: self.closed@, lines: self.lines.deep_view() }
    }
}

impl StateView {
    /// The state of a run that has read nothing.
    pub open spec fn empty() -> StateView {
        StateView { open: seq![], closed: seq![], lines: seq![] }
    }

    /// The state with `line` added behind the lines read so far.
    pub open spec fn with_line(self, line: LineView) -> StateView {
        StateView { lines: self.lines.push(line), ..self }
    }

    /// The state after a region of `kind` was opened on line `at`.
    pub open spec fn opened(self, kind: RegionKind, at: usize) -> StateView {
        StateView { open: self.open.push(OpenRegion { kind, start: at }), ..self }
    }

    /// The state after a closer for `kind` on line `at`, and whether the
    /// closer was accepted.
    ///
    /// The closer takes the top of the open stack. When nothing is open it
    /// takes the oldest closed region instead, and puts it back as the newest
    /// with its end unchanged. The entry taken is gone if its kind is not
    /// `kind`.
    pub open spec fn close_region(self, kind: RegionKind, at: usize) -> (
        StateView,
        Result<(), FilterError>,
    ) {
        if self.open.len() > 0 {
            let top = self.open.last();
            let rest = StateView { open: self.open.drop_last(), ..self };
            if top.kind != kind {
                (rest, Err(FilterError::MismatchedRegion))
            } else {
                let region = Region { kind: top.kind, start: top.start, end: at };
                (StateView { closed: seq![region] + self.closed, ..rest }, Ok(()))
            }
        } else if self.closed.len() > 0 {
            let top = self.closed.last();
            let rest = self.closed.drop_last();
            if top.kind != kind {
                (StateView { closed: rest, ..self }, Err(FilterError::MismatchedRegion))
            } else {
                (StateView { closed: seq![top] + rest, ..self }, Ok(()))
            }
        } else {
            (self, Err(FilterError::EmptyStack))
        }
    }

    /// The state after validation, and its verdict.
    ///
    /// A state with an open region is refused as it is. Otherwise the closed
    /// regions are turned round, into the order in which they were closed,
    /// and must then be well ordered.
    pub open spec fn validated(self) -> (StateView, Result<(), FilterError>) {
        if self.open.len() > 0 {
            (self, Err(FilterError::UnterminatedRegion))
        } else {
            let turned = StateView { closed: self.closed.reverse(), ..self };
            if well_ordered(turned.closed) {
                (turned, Ok(()))
            } else {
                (turned, Err(FilterError::MalformedRegion))
            }
        }
    }

    /// The state with every line inside a closed region marked as ignored.
    pub open spec fn applied(self) -> StateView {
        StateView {
            lines: Seq::new(
                self.lines.len(),
                |i: int|
                    LineView {
                        ignore: self.lines[i].ignore || covers(self.closed, i),
                        text: self.lines[i].text,
                    },
            ),
            ..self
        }
    }
}

impl Default for State {
    fn default() -> (state: State)
        ensures
            state@ == StateView::empty(),
    {
        State::new()
    }
}

impl State {
    /// A state that has read nothing.
    pub fn new() -> (state: State)
        ensures
            state@ == StateView::empty(),
    {
        let state = State { open: Vec::new(), closed: Vec::new(), lines: Vec::new() };
        assert(state.lines.deep_view() =~= Seq::<LineView>::empty());
        state
    }

    /// Adds `line`, without its inline delete spans, as a line to keep.
    pub fn remove_inline(&mut self, line: &str)
        ensures
            final(self)@ == old(self)@.with_line(
                LineView { ignore: false, text: strip_inline(line@) },
            ),
    {
        let text = strip_inline_spans(line);
        self.push_line(false, text);
    }

    /// Adds a line behind the lines read so far.
    pub fn push_line(&mut self, ignore: bool, text: String)
        ensures
            final(self)@ == old(self)@.with_line(LineView { ignore, text: text@ }),
    {
        let ghost before = self.lines.deep_view();
        let line = Line { ignore, text };
        self.lines.push(line);
        assert(self.lines.deep_view() =~= before.push(line@));
    }

    /// Opens a region of kind `t` on line `i`. This always succeeds.
    pub fn multiline_add_start(&mut self, t: RegionKind, i: usize) -> (r: Result<(), FilterError>)
        ensures
            r is Ok,
            final(self)@ == old(self)@.opened(t, i),
    {
        self.open.push(OpenRegion { kind: t, start: i });
        Ok(())
    }

    /// Handles a closer for kind `t` on line `i`.
    pub fn multiline_add_end(&mut self, t: &RegionKind, i: usize) -> (r: Result<(), FilterError>)
        ensures
            (final(self)@, r) == old(self)@.close_region(*t, i),
    {
        match self.open.pop() {
            Some(top) => {
                if top.kind != *t {
                    return Err(FilterError::MismatchedRegion);
                }
                let ghost before = self.closed@;
                self.closed.insert(0, Region { kind: top.kind, start: top.start, end: i });
                assert(self.closed@ =~= seq![Region { kind: top.kind, start: top.start, end: i }]
                    + before);
                Ok(())
            },
            None => match self.closed.pop() {
                Some(top) => {
                    if top.kind != *t {
                        return Err(FilterError::MismatchedRegion);
                    }
                    let ghost rest = self.closed@;
                    self.closed.insert(0, top);
                    assert(self.closed@ =~= seq![top] + rest);
                    Ok(())
                },
                None => Err(FilterError::EmptyStack),
            },
        }
    }

    /// Checks the regions once the input has ended.
    ///
    /// Nothing may still be open. The closed regions are put into the order
    /// in which they were closed; in that order each must be a proper range
    /// that starts no earlier than the one before it ends.
    pub fn validate_multiline(&mut self) -> (r: Result<(), FilterError>)
        ensures
            (final(self)@, r) == old(self)@.validated(),
    {
        if self.open.len() > 0 {
            return Err(FilterError::UnterminatedRegion);
        }
        let n: usize = self.closed.len();
        let mut turned: Vec<Region> = Vec::new();
        let mut i: usize = n;
        while i > 0
            invariant
                n == self.closed.len(),
                i <= n,
                turned.len() == n - i,
                forall|j: int| 0 <= j < turned.len() ==> turned[j] == self.closed[n - 1 - j],
            decreases i,
        {
            i -= 1;
            turned.push(self.closed[i]);
        }
        assert(turned@ =~= self.closed@.reverse());
        self.closed = turned;
        let mut previous: usize = 0;
        let mut k: usize = 0;
        while k < n
            invariant
                n == self.closed.len(),
                k <= n,
                self@ == (StateView { closed: old(self)@.closed.reverse(), ..old(self)@ }),
                self.open.len() == 0,
                k > 0 ==> previous == self.closed[k - 1].end,
                k == 0 ==> previous == 0,
                forall|j: int| 0 <= j < k ==> (#[trigger] self.closed[j]).start <= self.closed[j].end,
                forall|i: int, j: int|
                    0 <= i && i + 1 == j && j < k ==> (#[trigger] self.closed[i]).end
                        <= (#[trigger] self.closed[j]).start,
            decreases n - k,
        {
            let region = self.closed[k];
            if region.start < previous || region.start > region.end {
                assert(!well_ordered(self.closed@)) by {
                    if well_ordered(self.closed@) {
                        assert(self.closed@[k as int].start <= self.closed@[k as int].end);
                        if k > 0 {
                            assert(self.closed@[k - 1].end <= self.closed@[k as int].start);
                        }
                    }
                }
                return Err(FilterError::MalformedRegion);
            }
            previous = region.end;
            k += 1;
        }
        Ok(())
    }

    /// Marks every line inside a closed region as ignored.
    pub fn apply_regions(&mut self)
        ensures
            final(self)@ == old(self)@.applied(),
    {
        let n: usize = self.closed.len();
        let len: usize = self.lines.len();
        let mut k: usize = 0;
        while k < n
            invariant
                n == self.closed.len(),
                k <= n,
                self.open == old(self).open,
                self.closed == old(self).closed,
                len == self.lines.len() == old(self).lines.len(),
                forall|i: int|
                    0 <= i < len ==> (#[trigger] self.lines[i]).text == old(self).lines[i].text,
                forall|i: int|
                    0 <= i < len ==> ((#[trigger] self.lines[i]).ignore <==> old(
                        self,
                    ).lines[i].ignore || covers(self.closed@.take(k as int), i)),
            decreases n - k,
        {
            let region = self.closed[k];
            proof {
                assert forall|j: int| 0 <= j < len implies (covers(self.closed@.take(k + 1), j)
                    <==> covers(self.closed@.take(k as int), j) || region.start <= j
                    <= region.end) by {
                    lemma_covers_take(self.closed@, k as int, j);
                }
            }
            let mut i: usize = region.start;
            while i <= region.end && i < len
                invariant
                    n == self.closed.len(),
                    k < n,
                    region == self.closed[k as int],
                    region.start <= i,
                    i <= region.end + 1 || i == region.start,
                    self.open == old(self).open,
                    self.closed == old(self).closed,
                    len == self.lines.len() == old(self).lines.len(),
                    forall|j: int|
                        0 <= j < len ==> (#[trigger] self.lines[j]).text == old(self).lines[j].text,
                    forall|j: int|
                        0 <= j < len ==> ((#[trigger] self.lines[j]).ignore <==> old(
                            self,
                        ).lines[j].ignore || covers(self.closed@.take(k as int), j) || region.start
                            <= j < i),
                decreases len - i,
            {
                self.lines[i].ignore = true;
                i += 1;
            }
            k += 1;
        }
        assert(self.closed@.take(n as int) =~= self.closed@);
        assert(self.lines.deep_view() =~= old(self)@.applied().lines);
    }
}

} // verus!
