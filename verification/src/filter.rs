//! The filter: scan, validate, apply the regions, keep what is left.

use vstd::prelude::*;
use crate::error::FilterError;
use crate::pattern::{marked, MarkedLine, MarkedLineView, Patterns};
use crate::region::kept_texts;
use crate::state::{State, StateView};
use crate::text::{lines_of, render, render_lines, split_lines};

verus! {

/// What filtering the marked lines of a document gives: the texts of the
/// lines that are kept, or the reason why the document is refused.
///
/// The document is scanned from an empty state, the regions are validated,
/// every line inside a region is marked as ignored, and the lines that no
/// step has marked are kept in their order.
pub open spec fn filtered(doc: Seq<MarkedLineView>) -> Result<Seq<Seq<char>>, FilterError> {
    let (scanned, scan_verdict) = StateView::empty().scanned(doc);
    if scan_verdict is Err {
        Err(scan_verdict->Err_0)
    } else {
        let (validated, verdict) = scanned.validated();
        if verdict is Err {
            Err(verdict->Err_0)
        } else {
            Ok(kept_texts(validated.applied().lines))
        }
    }
}

impl State {
    /// The texts of the lines that are not ignored, in order.
    pub fn kept_lines(&self) -> (kept: Vec<String>)
        ensures
            kept.deep_view() == kept_texts(self@.lines),
    {
        let mut kept: Vec<String> = Vec::new();
        let mut i: usize = 0;
        while i < self.lines.len()
            invariant
                i <= self.lines.len(),
                kept.deep_view() == kept_texts(self@.lines.take(i as int)),
            decreases self.lines.len() - i,
        {
            let ghost before = kept.deep_view();
            proof {
                assert(self@.lines.take(i + 1).drop_last() == self@.lines.take(i as int));
                assert(self@.lines.take(i + 1).last() == self.lines[i as int]@);
            }
            if !self.lines[i].ignore {
                kept.push(self.lines[i].text.clone());
                assert(kept.deep_view() == before.push(self.lines[i as int].text@));
            }
            i += 1;
        }
        assert(self@.lines.take(i as int) == self@.lines);
        kept
    }
}

/// Filters a document given as marked lines.
pub fn filter_marked(doc: &Vec<MarkedLine>) -> (r: Result<Vec<String>, FilterError>)
    ensures
        match r {
            Ok(kept) => filtered(doc.deep_view()) == Ok::<Seq<Seq<char>>, FilterError>(
                kept.deep_view(),
            ),
            Err(e) => filtered(doc.deep_view()) == Err::<Seq<Seq<char>>, FilterError>(e),
        },
{
    let mut state = State::new();
    state.scan_marked(doc)?;
    state.validate_multiline()?;
    state.apply_regions();
    Ok(state.kept_lines())
}

/// Filters the text of a document and returns the lines that are kept.
pub fn filter_text(patterns: &Patterns, text: &str) -> (r: Result<Vec<String>, FilterError>)
    ensures
        match r {
            Ok(kept) => filtered(marked(lines_of(text@))) == Ok::<Seq<Seq<char>>, FilterError>(
                kept.deep_view(),
            ),
            Err(e) => filtered(marked(lines_of(text@))) == Err::<Seq<Seq<char>>, FilterError>(e),
        },
{
    let lines = split_lines(text);
    let doc = patterns.classify_all(&lines);
    filter_marked(&doc)
}

/// Filters the text of a document and returns the text to write in its
/// place: each kept line followed by a line feed.
pub fn filter_document(patterns: &Patterns, text: &str) -> (r: Result<String, FilterError>)
    ensures
        match r {
            Ok(out) => filtered(marked(lines_of(text@))) matches Ok(kept) && out@ == render(kept),
            Err(e) => filtered(marked(lines_of(text@))) == Err::<Seq<Seq<char>>, FilterError>(e),
        },
{
    let kept = filter_text(patterns, text)?;
    Ok(render_lines(&kept))
}

} // verus!
