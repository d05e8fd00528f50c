//! Which lines a run keeps, and where they stand in its output.

use vstd::prelude::*;
use crate::error::FilterError;
use crate::filter::filtered;
use crate::pattern::MarkedLineView;
use crate::region::{covers, kept_texts, LineView, Region};
use crate::scan::{is_trigger, swallows, Cursor};
use crate::state::StateView;
use crate::text::{has_token, inline_opener, lemma_has_token, strip_inline};

verus! {

/// Line `i` of `doc` is swallowed by the scan: it is a comment line that
/// holds a trigger or follows a swallowed line.
pub open spec fn swallowed_at(doc: Seq<MarkedLineView>, i: int) -> bool
    decreases i,
{
    if i < 0 || i >= doc.len() {
        false
    } else {
        doc[i].marks.comment && (is_trigger(doc[i].text) || (i > 0 && swallowed_at(doc, i - 1)))
    }
}

/// What the scan records for line `i` of `doc`.
pub open spec fn scanned_line(doc: Seq<MarkedLineView>, i: int) -> LineView {
    if swallowed_at(doc, i) {
        LineView { ignore: true, text: doc[i].text }
    } else {
        LineView { ignore: false, text: strip_inline(doc[i].text) }
    }
}

/// The regions that a run on `doc` hands to the filter.
pub open spec fn final_regions(doc: Seq<MarkedLineView>) -> Seq<Region> {
    StateView::empty().scanned(doc).0.validated().0.closed
}

/// The lines of a run on `doc` as the filter sees them: line `i` is ignored
/// if the scan swallowed it or a region holds it.
pub open spec fn final_lines(doc: Seq<MarkedLineView>) -> Seq<LineView> {
    Seq::new(
        doc.len(),
        |i: int|
            LineView {
                ignore: swallowed_at(doc, i) || covers(final_regions(doc), i),
                text: scanned_line(doc, i).text,
            },
    )
}

/// The number of lines before line `i` that the run keeps, which is the
/// place of line `i` in the output if it is kept.
pub open spec fn kept_before(lines: Seq<LineView>, i: int) -> int {
    kept_texts(lines.take(i)).len() as int
}

/// A text without an inline opener has no span to strip.
pub proof fn lemma_strip_without_opener(text: Seq<char>)
    requires
        !has_token(text, inline_opener()),
    ensures
        strip_inline(text) == text,
{
    lemma_has_token(text, inline_opener());
}

/// A scan that succeeds records `scanned_line` for each line it reads,
/// behind the lines that were there.
pub proof fn lemma_scan_lines(st: StateView, cursor: Cursor, doc: Seq<MarkedLineView>, k: int)
    requires
        0 <= k <= doc.len() <= usize::MAX,
        cursor.suppressing == swallowed_at(doc, k - 1),
        st.scan_from(cursor, doc, k).1 is Ok,
    ensures
        st.scan_from(cursor, doc, k).0.lines == st.lines + Seq::new(
            (doc.len() - k) as nat,
            |j: int| scanned_line(doc, k + j),
        ),
    decreases doc.len() - k,
{
    let rest = Seq::new((doc.len() - k) as nat, |j: int| scanned_line(doc, k + j));
    if k < doc.len() {
        let line = doc[k];
        let (next, moved, verdict) = st.scan_line(cursor, k as usize, line.marks, line.text);
        assert(swallows(cursor, line.marks, line.text) == swallowed_at(doc, k));
        if !swallowed_at(doc, k) && !has_token(line.text, inline_opener()) {
            lemma_strip_without_opener(line.text);
        }
        assert(next.lines == st.lines.push(scanned_line(doc, k)));
        assert(moved.suppressing == swallowed_at(doc, k));
        lemma_scan_lines(next, moved, doc, k + 1);
        let tail = Seq::new((doc.len() - k - 1) as nat, |j: int| scanned_line(doc, k + 1 + j));
        assert(st.lines.push(scanned_line(doc, k)) + tail =~= st.lines + rest);
    } else {
        assert(st.lines + rest =~= st.lines);
    }
}

/// The output of a run that succeeds is what is kept of `final_lines`.
pub proof fn lemma_filtered_lines(doc: Seq<MarkedLineView>)
    requires
        doc.len() <= usize::MAX,
        filtered(doc) is Ok,
    ensures
        filtered(doc) == Ok::<Seq<Seq<char>>, FilterError>(kept_texts(final_lines(doc))),
{
    let scanned = StateView::empty().scanned(doc).0;
    assert(StateView::empty().scan_from(Cursor::start(), doc, 0).1 is Ok);
    lemma_scan_lines(StateView::empty(), Cursor::start(), doc, 0);
    let validated = scanned.validated().0;
    assert(validated.applied().lines =~= final_lines(doc));
}

/// A line that is not ignored stands in the kept texts at the place that
/// `kept_before` gives.
pub proof fn lemma_kept_at(lines: Seq<LineView>, i: int)
    requires
        0 <= i < lines.len(),
        !lines[i].ignore,
    ensures
        0 <= kept_before(lines, i) < kept_texts(lines).len(),
        kept_texts(lines)[kept_before(lines, i)] == lines[i].text,
    decreases lines.len(),
{
    let shorter = lines.drop_last();
    if i == lines.len() - 1 {
        assert(lines.take(i) == shorter);
    } else {
        assert(shorter.take(i) == lines.take(i));
        lemma_kept_at(shorter, i);
    }
}

/// A line that is not ignored has fewer kept lines before it than any line
/// behind it.
pub proof fn lemma_kept_before_grows(lines: Seq<LineView>, i: int, j: int)
    requires
        0 <= i < j <= lines.len(),
        !lines[i].ignore,
    ensures
        kept_before(lines, i) < kept_before(lines, j),
    decreases j - i,
{
    assert(lines.take(j).drop_last() == lines.take(j - 1));
    assert(lines.take(j).last() == lines[j - 1]);
    if i + 1 < j {
        lemma_kept_before_grows(lines, i, j - 1);
    }
}

/// The line holds none of the markers: it opens and closes no block, holds
/// neither trigger substring and no inline opener.
pub open spec fn unmarked(line: MarkedLineView) -> bool {
    &&& !line.marks.opens_todo
    &&& !line.marks.opens_fix
    &&& !line.marks.opens_purge
    &&& !line.marks.closes_purge
    &&& !line.marks.closes_block
    &&& !is_trigger(line.text)
    &&& !has_token(line.text, inline_opener())
}

/// Line `i` of `doc` is in the output of the run.
pub open spec fn line_kept(doc: Seq<MarkedLineView>, i: int) -> bool {
    !swallowed_at(doc, i) && !covers(final_regions(doc), i)
}

/// A line that holds no marker is in the output with its text unchanged, at
/// the place that the kept lines before it leave to it, provided that no
/// region holds it and that it is not a comment line behind a swallowed line.
pub proof fn lemma_unmarked_line_kept(doc: Seq<MarkedLineView>, i: int)
    requires
        doc.len() <= usize::MAX,
        filtered(doc) is Ok,
        0 <= i < doc.len(),
        unmarked(doc[i]),
        !(doc[i].marks.comment && swallowed_at(doc, i - 1)),
        !covers(final_regions(doc), i),
    ensures
        line_kept(doc, i),
        0 <= kept_before(final_lines(doc), i) < filtered(doc)->Ok_0.len(),
        filtered(doc)->Ok_0[kept_before(final_lines(doc), i)] == doc[i].text,
{
    lemma_filtered_lines(doc);
    lemma_strip_without_opener(doc[i].text);
    lemma_kept_at(final_lines(doc), i);
}

/// The lines that a run keeps stand in its output in the order in which they
/// stood in the document.
pub proof fn lemma_kept_lines_in_order(doc: Seq<MarkedLineView>, i: int, j: int)
    requires
        doc.len() <= usize::MAX,
        filtered(doc) is Ok,
        0 <= i < j < doc.len(),
        line_kept(doc, i),
        line_kept(doc, j),
    ensures
        0 <= kept_before(final_lines(doc), i) < kept_before(final_lines(doc), j)
            < filtered(doc)->Ok_0.len(),
        filtered(doc)->Ok_0[kept_before(final_lines(doc), i)] == scanned_line(doc, i).text,
        filtered(doc)->Ok_0[kept_before(final_lines(doc), j)] == scanned_line(doc, j).text,
{
    lemma_filtered_lines(doc);
    lemma_kept_at(final_lines(doc), i);
    lemma_kept_at(final_lines(doc), j);
    lemma_kept_before_grows(final_lines(doc), i, j);
}

} // verus!
