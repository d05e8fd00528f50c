//! Filtering a document that a run has written changes nothing, as long as
//! the document holds no marker.

use vstd::prelude::*;
use crate::error::FilterError;
use crate::filter::filtered;
use crate::kept::{
    final_lines, lemma_filtered_lines, lemma_strip_without_opener, swallowed_at, unmarked,
};
use crate::pattern::{marked, MarkedLineView};
use crate::region::{kept_texts, well_ordered, LineView, Region};
use crate::scan::Cursor;
use crate::state::StateView;
use crate::text::{
    ends_with_cr, feed_free, lemma_lines_count, lemma_lines_feed_free, lemma_lines_of_render,
    lemma_strip_feed_free, lines_of, render,
};

verus! {

/// The texts of the lines of `doc`.
pub open spec fn texts_of(doc: Seq<MarkedLineView>) -> Seq<Seq<char>> {
    Seq::new(doc.len(), |i: int| doc[i].text)
}

/// Where every line is unmarked, the scan swallows none.
pub proof fn lemma_unmarked_not_swallowed(doc: Seq<MarkedLineView>, i: int)
    requires
        forall|j: int| 0 <= j < doc.len() ==> unmarked(#[trigger] doc[j]),
    ensures
        !swallowed_at(doc, i),
    decreases i,
{
    if 0 < i < doc.len() {
        lemma_unmarked_not_swallowed(doc, i - 1);
    }
}

/// The scan of unmarked lines succeeds and records no region.
pub proof fn lemma_scan_unmarked(st: StateView, cursor: Cursor, doc: Seq<MarkedLineView>, k: int)
    requires
        0 <= k <= doc.len(),
        forall|j: int| 0 <= j < doc.len() ==> unmarked(#[trigger] doc[j]),
        !cursor.suppressing,
        st.open.len() == 0,
        st.closed.len() == 0,
    ensures
        st.scan_from(cursor, doc, k).1 is Ok,
        st.scan_from(cursor, doc, k).0.open.len() == 0,
        st.scan_from(cursor, doc, k).0.closed.len() == 0,
    decreases doc.len() - k,
{
    if k < doc.len() {
        let (next, moved, verdict) = st.scan_line(cursor, k as usize, doc[k].marks, doc[k].text);
        assert(unmarked(doc[k]));
        lemma_scan_unmarked(next, moved, doc, k + 1);
    }
}

/// Where no line is ignored, every text is kept.
pub proof fn lemma_kept_all(lines: Seq<LineView>)
    requires
        forall|i: int| 0 <= i < lines.len() ==> !(#[trigger] lines[i]).ignore,
    ensures
        kept_texts(lines) == Seq::new(lines.len(), |i: int| lines[i].text),
    decreases lines.len(),
{
    if lines.len() > 0 {
        let shorter = lines.drop_last();
        assert forall|i: int| 0 <= i < shorter.len() implies !(#[trigger] shorter[i]).ignore by {
            assert(shorter[i] == lines[i]);
        }
        lemma_kept_all(shorter);
        assert(kept_texts(lines) =~= Seq::new(lines.len(), |i: int| lines[i].text));
    } else {
        assert(kept_texts(lines) =~= Seq::new(lines.len(), |i: int| lines[i].text));
    }
}

/// A document of which no line holds a marker is kept as it is.
pub proof fn lemma_unmarked_document_kept(doc: Seq<MarkedLineView>)
    requires
        doc.len() <= usize::MAX,
        forall|i: int| 0 <= i < doc.len() ==> unmarked(#[trigger] doc[i]),
    ensures
        filtered(doc) == Ok::<Seq<Seq<char>>, FilterError>(texts_of(doc)),
{
    lemma_scan_unmarked(StateView::empty(), Cursor::start(), doc, 0);
    let scanned = StateView::empty().scanned(doc).0;
    assert(scanned.closed.reverse() =~= Seq::<Region>::empty());
    assert(well_ordered(scanned.closed.reverse()));
    assert(filtered(doc) is Ok);
    lemma_filtered_lines(doc);
    let lines = final_lines(doc);
    assert forall|i: int| 0 <= i < lines.len() implies !(#[trigger] lines[i]).ignore && lines[i].text
        == doc[i].text by {
        lemma_unmarked_not_swallowed(doc, i);
        assert(unmarked(doc[i]));
        lemma_strip_without_opener(doc[i].text);
    }
    lemma_kept_all(lines);
    assert(kept_texts(lines) =~= texts_of(doc));
}

/// Every kept text is the text of a line, and no more texts are kept than
/// there are lines.
pub proof fn lemma_kept_from_lines(lines: Seq<LineView>)
    ensures
        kept_texts(lines).len() <= lines.len(),
        forall|p: int|
            0 <= p < kept_texts(lines).len() ==> exists|i: int|
                0 <= i < lines.len() && (#[trigger] lines[i]).text == #[trigger] kept_texts(lines)[p],
    decreases lines.len(),
{
    if lines.len() > 0 {
        let shorter = lines.drop_last();
        lemma_kept_from_lines(shorter);
        assert forall|p: int| 0 <= p < kept_texts(lines).len() implies exists|i: int|
            0 <= i < lines.len() && (#[trigger] lines[i]).text == #[trigger] kept_texts(
                lines,
            )[p] by {
            if p < kept_texts(shorter).len() {
                assert(kept_texts(lines)[p] == kept_texts(shorter)[p]);
                let i = choose|i: int|
                    0 <= i < shorter.len() && (#[trigger] shorter[i]).text == kept_texts(shorter)[p];
                assert(lines[i].text == kept_texts(lines)[p]);
            } else {
                assert(lines[lines.len() - 1].text == kept_texts(lines)[p]);
            }
        }
    }
}

/// The output of a run on lines without line feeds holds no line feed, and
/// no more lines than the document.
pub proof fn lemma_output_feed_free(doc: Seq<MarkedLineView>)
    requires
        doc.len() <= usize::MAX,
        filtered(doc) is Ok,
        forall|i: int| 0 <= i < doc.len() ==> feed_free((#[trigger] doc[i]).text),
    ensures
        filtered(doc)->Ok_0.len() <= doc.len(),
        forall|p: int| 0 <= p < filtered(doc)->Ok_0.len() ==> feed_free(#[trigger] filtered(doc)->Ok_0[p]),
{
    lemma_filtered_lines(doc);
    let lines = final_lines(doc);
    let out = kept_texts(lines);
    lemma_kept_from_lines(lines);
    assert forall|p: int| 0 <= p < out.len() implies feed_free(#[trigger] out[p]) by {
        let i = choose|i: int| 0 <= i < lines.len() && (#[trigger] lines[i]).text == out[p];
        assert(feed_free(doc[i].text));
        lemma_strip_feed_free(doc[i].text);
    }
}

/// Filtering twice gives what filtering once gave: if a run on `text`
/// succeeds and the lines it keeps hold no marker, a run on the text
/// rendered from those lines keeps the same lines, and so renders the same
/// text.
///
/// This holds of kept lines that do not end with a carriage return. Such a
/// line is written with a line feed behind it, and the line ending read back
/// takes the carriage return with it.
pub proof fn lemma_second_run_changes_nothing(text: Seq<char>)
    requires
        text.len() <= usize::MAX,
        filtered(marked(lines_of(text))) is Ok,
        ({
            let kept = filtered(marked(lines_of(text)))->Ok_0;
            forall|i: int|
                0 <= i < kept.len() ==> unmarked(#[trigger] marked(kept)[i]) && !ends_with_cr(kept[i])
        }),
    ensures
        ({
            let kept = filtered(marked(lines_of(text)))->Ok_0;
            filtered(marked(lines_of(render(kept)))) == Ok::<Seq<Seq<char>>, FilterError>(kept)
        }),
{
    let lines = lines_of(text);
    let doc = marked(lines);
    let kept = filtered(doc)->Ok_0;
    lemma_lines_count(text, 0);
    lemma_lines_feed_free(text, 0);
    assert forall|i: int| 0 <= i < doc.len() implies feed_free((#[trigger] doc[i]).text) by {
        assert(doc[i].text == lines[i]);
    }
    lemma_output_feed_free(doc);
    assert forall|i: int| 0 <= i < kept.len() implies feed_free(#[trigger] kept[i]) && !ends_with_cr(
        kept[i],
    ) by {
        assert(unmarked(marked(kept)[i]));
    }
    lemma_lines_of_render(kept);
    lemma_unmarked_document_kept(marked(kept));
    assert(texts_of(marked(kept)) =~= kept);
}

} // verus!
