use comment_purge::error::FilterError;
use comment_purge::pattern::{LineMarks, MarkedLine, Patterns};
use comment_purge::region::{OpenRegion, Region, RegionKind};
use comment_purge::scan::Cursor;
use comment_purge::state::State;

const PLAIN: LineMarks = LineMarks {
    comment: false,
    opens_todo: false,
    opens_fix: false,
    opens_purge: false,
    closes_purge: false,
    closes_block: false,
};

const COMMENT: LineMarks = LineMarks { comment: true, ..PLAIN };

fn marked(text: &str, marks: LineMarks) -> MarkedLine {
    MarkedLine { text: text.to_string(), marks }
}

fn recorded(state: &State) -> Vec<(bool, String)> {
    state.lines.iter().map(|l| (l.ignore, l.text.clone())).collect()
}

fn rec(ignore: bool, text: &str) -> (bool, String) {
    (ignore, text.to_string())
}

#[test]
fn cursor_starts_with_fix_and_no_suppression() {
    assert_eq!(
        Cursor::new(),
        Cursor { suppressing: false, last_opened: RegionKind::Fix }
    );
}

#[test]
fn plain_line_is_recorded_as_it_is() {
    let mut state = State::new();
    let mut cursor = Cursor::new();
    assert_eq!(state.scan_line(&mut cursor, 0, &PLAIN, "let x = 1;"), Ok(()));
    assert_eq!(recorded(&state), vec![rec(false, "let x = 1;")]);
    assert_eq!(cursor, Cursor::new());
}

#[test]
fn trigger_in_a_comment_line_starts_suppression() {
    let mut state = State::new();
    let mut cursor = Cursor::new();
    assert_eq!(state.scan_line(&mut cursor, 0, &COMMENT, "// FIXME later"), Ok(()));
    assert!(cursor.suppressing);
    assert_eq!(state.scan_line(&mut cursor, 1, &COMMENT, "// more"), Ok(()));
    assert!(cursor.suppressing);
    assert_eq!(state.scan_line(&mut cursor, 2, &PLAIN, "code();"), Ok(()));
    assert!(!cursor.suppressing);
    assert_eq!(state.scan_line(&mut cursor, 3, &COMMENT, "// kept"), Ok(()));
    assert!(!cursor.suppressing);
    assert_eq!(
        recorded(&state),
        vec![
            rec(true, "// FIXME later"),
            rec(true, "// more"),
            rec(false, "code();"),
            rec(false, "// kept"),
        ]
    );
}

#[test]
fn trigger_outside_a_comment_line_has_no_effect() {
    let mut state = State::new();
    let mut cursor = Cursor::new();
    assert_eq!(state.scan_line(&mut cursor, 0, &PLAIN, "x = 1; // TODO: check"), Ok(()));
    assert!(!cursor.suppressing);
    assert_eq!(recorded(&state), vec![rec(false, "x = 1; // TODO: check")]);
}

#[test]
fn todo_without_colon_is_no_trigger() {
    let mut state = State::new();
    let mut cursor = Cursor::new();
    assert_eq!(state.scan_line(&mut cursor, 0, &COMMENT, "// TODO later"), Ok(()));
    assert!(!cursor.suppressing);
    assert_eq!(recorded(&state), vec![rec(false, "// TODO later")]);
}

#[test]
fn swallowed_line_tells_the_tracker_nothing() {
    let mut state = State::new();
    let mut cursor = Cursor::new();
    let marks = LineMarks { comment: true, opens_purge: true, opens_todo: true, ..PLAIN };
    assert_eq!(state.scan_line(&mut cursor, 0, &marks, "// PURGE // TODO: /* TODO"), Ok(()));
    assert!(state.open.is_empty());
    assert_eq!(cursor.last_opened, RegionKind::Fix);
    assert_eq!(recorded(&state), vec![rec(true, "// PURGE // TODO: /* TODO")]);
}

#[test]
fn line_with_inline_span_tells_the_tracker_nothing() {
    let mut state = State::new();
    let mut cursor = Cursor::new();
    let marks = LineMarks { opens_todo: true, closes_block: true, ..PLAIN };
    assert_eq!(state.scan_line(&mut cursor, 0, &marks, "*/ /* TODO /*!! x */ y"), Ok(()));
    assert!(state.open.is_empty());
    assert!(state.closed.is_empty());
    assert_eq!(cursor.last_opened, RegionKind::Fix);
    assert_eq!(recorded(&state), vec![rec(false, "*/ /* TODO  y")]);
}

#[test]
fn line_with_inline_span_ends_suppression() {
    let mut state = State::new();
    let mut cursor = Cursor { suppressing: true, last_opened: RegionKind::Todo };
    assert_eq!(state.scan_line(&mut cursor, 4, &PLAIN, "a /*!! b */ c"), Ok(()));
    assert_eq!(cursor, Cursor { suppressing: false, last_opened: RegionKind::Todo });
    assert_eq!(recorded(&state), vec![rec(false, "a  c")]);
}

#[test]
fn comment_line_with_inline_span_is_swallowed_while_suppressing() {
    let mut state = State::new();
    let mut cursor = Cursor { suppressing: true, last_opened: RegionKind::Fix };
    assert_eq!(state.scan_line(&mut cursor, 1, &COMMENT, "// see /*!! x */"), Ok(()));
    assert!(cursor.suppressing);
    assert_eq!(recorded(&state), vec![rec(true, "// see /*!! x */")]);
}

#[test]
fn openers_fire_in_their_order_and_the_last_one_names_the_kind() {
    let mut state = State::new();
    let mut cursor = Cursor::new();
    let marks = LineMarks { opens_todo: true, opens_fix: true, opens_purge: true, ..PLAIN };
    assert_eq!(state.scan_line(&mut cursor, 7, &marks, "all three"), Ok(()));
    assert_eq!(
        state.open,
        vec![
            OpenRegion { kind: RegionKind::Todo, start: 7 },
            OpenRegion { kind: RegionKind::Fix, start: 7 },
            OpenRegion { kind: RegionKind::Purge, start: 7 },
        ]
    );
    assert_eq!(cursor.last_opened, RegionKind::Purge);
    let marks = LineMarks { opens_todo: true, opens_fix: true, ..PLAIN };
    assert_eq!(state.scan_line(&mut cursor, 8, &marks, "two"), Ok(()));
    assert_eq!(cursor.last_opened, RegionKind::Fix);
    let marks = LineMarks { opens_todo: true, ..PLAIN };
    assert_eq!(state.scan_line(&mut cursor, 9, &marks, "one"), Ok(()));
    assert_eq!(cursor.last_opened, RegionKind::Todo);
    assert_eq!(state.open.len(), 6);
}

#[test]
fn closer_is_held_to_the_kind_opened_last() {
    let mut state = State::new();
    let mut cursor = Cursor::new();
    let open_purge = LineMarks { comment: true, opens_purge: true, ..PLAIN };
    let close_block = LineMarks { closes_block: true, ..PLAIN };
    assert_eq!(state.scan_line(&mut cursor, 0, &open_purge, "// PURGE"), Ok(()));
    // The block closer closes the Purge region: Purge was opened last.
    assert_eq!(state.scan_line(&mut cursor, 1, &close_block, "*/"), Ok(()));
    assert_eq!(
        state.closed,
        vec![Region { kind: RegionKind::Purge, start: 0, end: 1 }]
    );
}

#[test]
fn line_can_open_and_close_a_region() {
    let mut state = State::new();
    let mut cursor = Cursor::new();
    let marks = LineMarks { opens_todo: true, closes_block: true, ..PLAIN };
    assert_eq!(state.scan_line(&mut cursor, 3, &marks, "*/ /* TODO"), Ok(()));
    assert!(state.open.is_empty());
    assert_eq!(state.closed, vec![Region { kind: RegionKind::Todo, start: 3, end: 3 }]);
    assert_eq!(recorded(&state), vec![rec(false, "*/ /* TODO")]);
}

#[test]
fn refused_closer_leaves_the_line_unrecorded() {
    let mut state = State::new();
    let mut cursor = Cursor::new();
    let marks = LineMarks { closes_block: true, ..PLAIN };
    assert_eq!(state.scan_line(&mut cursor, 0, &marks, "*/"), Err(FilterError::EmptyStack));
    assert!(state.lines.is_empty());
}

#[test]
fn first_refused_closer_ends_the_line() {
    let mut state = State::new();
    let mut cursor = Cursor::new();
    state.multiline_add_start(RegionKind::Todo, 0).unwrap();
    let marks = LineMarks { closes_purge: true, closes_block: true, ..PLAIN };
    // Fix is the kind at the start of a scan, and the open region is Todo.
    assert_eq!(
        state.scan_line(&mut cursor, 1, &marks, "both"),
        Err(FilterError::MismatchedRegion)
    );
    assert!(state.open.is_empty());
    assert!(state.closed.is_empty());
    assert!(state.lines.is_empty());
}

#[test]
fn scan_stops_at_the_first_line_that_fails() {
    let mut state = State::new();
    let doc = vec![
        marked("a", PLAIN),
        marked("*/", LineMarks { closes_block: true, ..PLAIN }),
        marked("b", PLAIN),
    ];
    assert_eq!(state.scan_marked(&doc), Err(FilterError::EmptyStack));
    assert_eq!(recorded(&state), vec![rec(false, "a")]);
}

#[test]
fn scan_refuses_a_region_left_open() {
    let mut state = State::new();
    let doc = vec![marked("/* FIX", LineMarks { opens_fix: true, ..PLAIN }), marked("a", PLAIN)];
    assert_eq!(state.scan_marked(&doc), Err(FilterError::UnterminatedRegion));
    assert_eq!(state.open, vec![OpenRegion { kind: RegionKind::Fix, start: 0 }]);
    assert_eq!(recorded(&state), vec![rec(false, "/* FIX"), rec(false, "a")]);
}

#[test]
fn scan_numbers_the_lines_from_zero() {
    let mut state = State::new();
    let doc = vec![
        marked("a", PLAIN),
        marked("// note", COMMENT),
        marked("/* TODO", LineMarks { opens_todo: true, ..PLAIN }),
        marked("b", PLAIN),
        marked("*/", LineMarks { closes_block: true, ..PLAIN }),
    ];
    assert_eq!(state.scan_marked(&doc), Ok(()));
    assert_eq!(state.closed, vec![Region { kind: RegionKind::Todo, start: 2, end: 4 }]);
    assert_eq!(state.lines.len(), 5);
}

#[test]
fn first_cycle_reads_the_marks_from_the_text() {
    let mut state = State::new();
    let text =
        "keep\n// TODO: drop\n// and this\ncode\n// PURGE\nx /*!! y */ z\n// ENDPURGE\nend";
    assert_eq!(state.first_cycle(&Patterns::new().unwrap(), text), Ok(()));
    assert_eq!(
        recorded(&state),
        vec![
            rec(false, "keep"),
            rec(true, "// TODO: drop"),
            rec(true, "// and this"),
            rec(false, "code"),
            rec(false, "// PURGE"),
            rec(false, "x  z"),
            rec(false, "// ENDPURGE"),
            rec(false, "end"),
        ]
    );
    assert!(state.open.is_empty());
    assert_eq!(state.closed, vec![Region { kind: RegionKind::Purge, start: 4, end: 6 }]);
}

#[test]
fn first_cycle_swallows_an_opener_behind_a_tagged_comment() {
    let mut state = State::new();
    // The Purge opener continues the tagged comment and opens nothing, so
    // the closer finds nothing to close.
    let text = "// FIX this\n// PURGE\nx\n// ENDPURGE\n";
    assert_eq!(state.first_cycle(&Patterns::new().unwrap(), text), Err(FilterError::EmptyStack));
    assert_eq!(
        recorded(&state),
        vec![rec(true, "// FIX this"), rec(true, "// PURGE"), rec(false, "x")]
    );
}

#[test]
fn first_cycle_of_an_empty_text() {
    let mut state = State::new();
    assert_eq!(state.first_cycle(&Patterns::new().unwrap(), ""), Ok(()));
    assert!(state.lines.is_empty());
}
