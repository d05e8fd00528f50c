//! The line scanner: one forward pass that decides, line by line, what is
//! swallowed, what is edited and what the region tracker is told.

use vstd::prelude::*;
use crate::error::FilterError;
use crate::pattern::{marked, LineMarks, MarkedLine, MarkedLineView, Patterns};
use crate::region::{LineView, RegionKind};
use crate::state::{State, StateView};
use crate::text::{
    chars_of, contains_token, has_token, inline_opener, lines_of, split_lines, strip_inline,
};

verus! {

/// What the scanner carries from one line to the next.
#[derive(Clone, Copy, Debug, PartialEq, Eq, Structural)]
pub struct Cursor {
    /// The line before was swallowed, and a comment line would be too.
    pub suppressing: bool,
    /// The kind of the region opened last, which the next closer is held to.
    pub last_opened: RegionKind,
}

impl Cursor {
    /// The cursor before the first line.
    pub open spec fn start() -> Cursor {
        Cursor { suppressing: false, last_opened: RegionKind::Fix }
    }

    /// The cursor before the first line.
    pub fn new() -> (cursor: Cursor)
        ensures
            cursor == Cursor::start(),
    {
        Cursor { suppressing: false, last_opened: RegionKind::Fix }
    }
}

/// The first of the two substrings that make a comment line a trigger.
pub open spec fn fix_trigger() -> Seq<char> {
    "// FIX"@
}

/// The second of the two substrings that make a comment line a trigger.
pub open spec fn todo_trigger() -> Seq<char> {
    "// TODO:"@
}

/// `text` holds one of the two trigger substrings.
pub open spec fn is_trigger(text: Seq<char>) -> bool {
    has_token(text, fix_trigger()) || has_token(text, todo_trigger())
}

/// The line is dropped as a tagged comment or as the continuation of one.
pub open spec fn swallows(cursor: Cursor, marks: LineMarks, text: Seq<char>) -> bool {
    marks.comment && (cursor.suppressing || is_trigger(text))
}

/// The kind that closers are held to once the openers of a line have fired.
pub open spec fn last_after(last: RegionKind, marks: LineMarks) -> RegionKind {
    if marks.opens_purge {
        RegionKind::Purge
    } else if marks.opens_fix {
        RegionKind::Fix
    } else if marks.opens_todo {
        RegionKind::Todo
    } else {
        last
    }
}

impl StateView {
    /// The state after an opener that fires only if `fire` holds.
    pub open spec fn opened_if(self, fire: bool, kind: RegionKind, at: usize) -> StateView {
        if fire {
            self.opened(kind, at)
        } else {
            self
        }
    }

    /// The tracker calls of line `at`: the openers for Todo, Fix and Purge,
    /// then the Purge closer, then the block-comment closer, each only if its
    /// mark is set. The first closer that is refused ends the line.
    pub open spec fn track_line(self, last: RegionKind, marks: LineMarks, at: usize) -> (
        StateView,
        Result<(), FilterError>,
    ) {
        let opened = self.opened_if(marks.opens_todo, RegionKind::Todo, at).opened_if(
            marks.opens_fix,
            RegionKind::Fix,
            at,
        ).opened_if(marks.opens_purge, RegionKind::Purge, at);
        let kind = last_after(last, marks);
        let (first, verdict) = if marks.closes_purge {
            opened.close_region(kind, at)
        } else {
            (opened, Ok(()))
        };
        if verdict is Err {
            (first, verdict)
        } else if marks.closes_block {
            first.close_region(kind, at)
        } else {
            (first, Ok(()))
        }
    }

    /// One step of the scan, on line `at` with its `marks` and `text`.
    ///
    /// A swallowed line is recorded as ignored. A line with an inline opener
    /// is recorded without its spans and tells the tracker nothing. Any other
    /// line makes its tracker calls and is recorded as it is, unless a closer
    /// is refused: then the line is not recorded.
    pub open spec fn scan_line(self, cursor: Cursor, at: usize, marks: LineMarks, text: Seq<char>) -> (
        StateView,
        Cursor,
        Result<(), FilterError>,
    ) {
        if swallows(cursor, marks, text) {
            (
                self.with_line(LineView { ignore: true, text }),
                Cursor { suppressing: true, ..cursor },
                Ok(()),
            )
        } else if has_token(text, inline_opener()) {
            (
                self.with_line(LineView { ignore: false, text: strip_inline(text) }),
                Cursor { suppressing: false, ..cursor },
                Ok(()),
            )
        } else {
            let (after, verdict) = self.track_line(cursor.last_opened, marks, at);
            let next = Cursor {
                suppressing: false,
                last_opened: last_after(cursor.last_opened, marks),
            };
            if verdict is Err {
                (after, next, verdict)
            } else {
                (after.with_line(LineView { ignore: false, text }), next, Ok(()))
            }
        }
    }

    /// The scan of the lines of `doc` from index `k` on, stopped by the first
    /// line that fails.
    pub open spec fn scan_from(self, cursor: Cursor, doc: Seq<MarkedLineView>, k: int) -> (
        StateView,
        Result<(), FilterError>,
    )
        decreases doc.len() - k,
    {
        if k < 0 || k >= doc.len() {
            (self, Ok(()))
        } else {
            let (next, moved, verdict) = self.scan_line(cursor, k as usize, doc[k].marks, doc[k].text);
            if verdict is Err {
                (next, verdict)
            } else {
                next.scan_from(moved, doc, k + 1)
            }
        }
    }

    /// The scan of all of `doc`, from its first line to the end of the
    /// input, where no region may be left open.
    pub open spec fn scanned(self, doc: Seq<MarkedLineView>) -> (StateView, Result<(), FilterError>) {
        let (end, verdict) = self.scan_from(Cursor::start(), doc, 0);
        if verdict is Ok && end.open.len() > 0 {
            (end, Err(FilterError::UnterminatedRegion))
        } else {
            (end, verdict)
        }
    }
}

/// Whether the characters `v` hold one of the two trigger substrings.
fn holds_trigger(v: &Vec<char>) -> (found: bool)
    ensures
        found == is_trigger(v@),
{
    let fix = chars_of("// FIX");
    if contains_token(v, &fix) {
        return true;
    }
    let todo = chars_of("// TODO:");
    contains_token(v, &todo)
}

impl State {
    /// Scans one line: line `index` of the document, with its `marks`.
    pub fn scan_line(&mut self, cursor: &mut Cursor, index: usize, marks: &LineMarks, line: &str) -> (r:
        Result<(), FilterError>)
        ensures
            (final(self)@, *final(cursor), r) == old(self)@.scan_line(
                *old(cursor),
                index,
                *marks,
                line@,
            ),
    {
        let v = chars_of(line);
        if marks.comment && (cursor.suppressing || holds_trigger(&v)) {
            cursor.suppressing = true;
            self.push_line(true, line.to_owned());
            return Ok(());
        }
        cursor.suppressing = false;
        let opener = chars_of("/*!!");
        if contains_token(&v, &opener) {
            self.remove_inline(line);
            return Ok(());
        }
        if marks.opens_todo {
            self.multiline_add_start(RegionKind::Todo, index)?;
            cursor.last_opened = RegionKind::Todo;
        }
        if marks.opens_fix {
            self.multiline_add_start(RegionKind::Fix, index)?;
            cursor.last_opened = RegionKind::Fix;
        }
        if marks.opens_purge {
            self.multiline_add_start(RegionKind::Purge, index)?;
            cursor.last_opened = RegionKind::Purge;
        }
        if marks.closes_purge {
            self.multiline_add_end(&cursor.last_opened, index)?;
        }
        if marks.closes_block {
            self.multiline_add_end(&cursor.last_opened, index)?;
        }
        self.push_line(false, line.to_owned());
        Ok(())
    }

    /// Scans the lines of `doc`, in order, from the first line on. At the
    /// end of the input no region may be left open.
    pub fn scan_marked(&mut self, doc: &Vec<MarkedLine>) -> (r: Result<(), FilterError>)
        ensures
            (final(self)@, r) == old(self)@.scanned(doc.deep_view()),
    {
        let mut cursor = Cursor::new();
        let mut k: usize = 0;
        while k < doc.len()
            invariant
                k <= doc.len(),
                self@.scan_from(cursor, doc.deep_view(), k as int) == old(self)@.scan_from(
                    Cursor::start(),
                    doc.deep_view(),
                    0,
                ),
            decreases doc.len() - k,
        {
            let r = self.scan_line(&mut cursor, k, &doc[k].marks, doc[k].text.as_str());
            if r.is_err() {
                return r;
            }
            k += 1;
        }
        if self.open.len() > 0 {
            return Err(FilterError::UnterminatedRegion);
        }
        Ok(())
    }

    /// Scans `main_string`: splits it into lines, runs the patterns on each
    /// line, and scans the marked lines.
    pub fn first_cycle(&mut self, patterns: &Patterns, main_string: &str) -> (r: Result<
        (),
        FilterError,
    >)
        ensures
            (final(self)@, r) == old(self)@.scanned(marked(lines_of(main_string@))),
    {
        let lines = split_lines(main_string);
        let doc = patterns.classify_all(&lines);
        self.scan_marked(&doc)
    }
}

} // verus!
