use comment_purge::error::FilterError;
use comment_purge::pattern::{contains_inline_delete_span, LineMarks, Patterns};

const NONE: LineMarks = LineMarks {
    comment: false,
    opens_todo: false,
    opens_fix: false,
    opens_purge: false,
    closes_purge: false,
    closes_block: false,
};

#[test]
fn comment_line_starts_with_the_comment_token() {
    let p = Patterns::new().unwrap();
    assert!(p.is_comment_line("// hello"));
    assert!(p.is_comment_line("   \t//hello"));
    assert!(p.is_comment_line("//"));
    assert!(!p.is_comment_line("x = 1; // hello"));
    assert!(!p.is_comment_line("/ / hello"));
    assert!(!p.is_comment_line(""));
}

#[test]
fn todo_block_opener_is_found_anywhere_in_the_line() {
    let p = Patterns::new().unwrap();
    assert!(p.opens_todo_block("/* TODO"));
    assert!(p.opens_todo_block("/*TODO: later"));
    assert!(p.opens_todo_block("x = 1; /*   TODO"));
    assert!(!p.opens_todo_block("/* todo"));
    assert!(!p.opens_todo_block("/* FIX"));
    assert!(!p.opens_todo_block("// TODO"));
}

#[test]
fn fix_block_opener_is_found_anywhere_in_the_line() {
    let p = Patterns::new().unwrap();
    assert!(p.opens_fix_block("/* FIX"));
    assert!(p.opens_fix_block("  /*FIXME"));
    assert!(p.opens_fix_block("code /* FIX"));
    assert!(!p.opens_fix_block("/* Fix"));
    assert!(!p.opens_fix_block("/* TODO"));
}

#[test]
fn purge_opener_is_a_comment_that_begins_with_the_tag() {
    let p = Patterns::new().unwrap();
    assert!(p.opens_purge_block("// PURGE"));
    assert!(p.opens_purge_block("  //PURGE from here"));
    assert!(!p.opens_purge_block("// ENDPURGE"));
    assert!(!p.opens_purge_block("x; // PURGE"));
    assert!(!p.opens_purge_block("// purge"));
}

#[test]
fn purge_closer_is_a_comment_that_begins_with_the_tag() {
    let p = Patterns::new().unwrap();
    assert!(p.closes_purge_block("// ENDPURGE"));
    assert!(p.closes_purge_block("\t//ENDPURGE"));
    assert!(!p.closes_purge_block("// PURGE"));
    assert!(!p.closes_purge_block("x; // ENDPURGE"));
}

#[test]
fn block_closer_stands_at_the_start_of_the_line() {
    let p = Patterns::new().unwrap();
    assert!(p.closes_block_comment("*/"));
    assert!(p.closes_block_comment("   */ trailing"));
    assert!(!p.closes_block_comment("x */"));
    assert!(!p.closes_block_comment("* /"));
}

#[test]
fn inline_opener_is_found_anywhere_in_the_line() {
    assert!(contains_inline_delete_span("a /*!! b */"));
    assert!(contains_inline_delete_span("/*!!"));
    assert!(!contains_inline_delete_span("/*! !"));
    assert!(!contains_inline_delete_span("/* !!"));
    assert!(!contains_inline_delete_span(""));
}

#[test]
fn classify_runs_every_pattern() {
    let p = Patterns::new().unwrap();
    assert_eq!(p.classify("let x = 1;"), NONE);
    assert_eq!(p.classify("// note"), LineMarks { comment: true, ..NONE });
    assert_eq!(p.classify("/* TODO"), LineMarks { opens_todo: true, ..NONE });
    assert_eq!(p.classify("/* FIX"), LineMarks { opens_fix: true, ..NONE });
    assert_eq!(
        p.classify("// PURGE"),
        LineMarks { comment: true, opens_purge: true, ..NONE }
    );
    assert_eq!(
        p.classify("// ENDPURGE"),
        LineMarks { comment: true, closes_purge: true, ..NONE }
    );
    assert_eq!(p.classify("*/"), LineMarks { closes_block: true, ..NONE });
}

#[test]
fn classify_sees_several_marks_on_one_line() {
    let p = Patterns::new().unwrap();
    assert_eq!(
        p.classify("*/ /* TODO /* FIX"),
        LineMarks { opens_todo: true, opens_fix: true, closes_block: true, ..NONE }
    );
    assert_eq!(
        p.classify("// PURGE /* TODO"),
        LineMarks { comment: true, opens_todo: true, opens_purge: true, ..NONE }
    );
}

#[test]
fn classify_all_keeps_the_lines_in_order() {
    let p = Patterns::new().unwrap();
    let lines = vec!["a".to_string(), "// b".to_string(), "*/".to_string()];
    let doc = p.classify_all(&lines);
    assert_eq!(doc.len(), 3);
    assert_eq!(doc[0].text, "a");
    assert_eq!(doc[0].marks, NONE);
    assert_eq!(doc[1].text, "// b");
    assert_eq!(doc[1].marks, LineMarks { comment: true, ..NONE });
    assert_eq!(doc[2].text, "*/");
    assert_eq!(doc[2].marks, LineMarks { closes_block: true, ..NONE });
}

#[test]
fn pattern_failure_has_a_message() {
    assert_eq!(
        FilterError::PatternCompileFailure.message(),
        "a built-in marker pattern failed to compile"
    );
}

#[test]
fn built_in_patterns_compile() {
    assert!(Patterns::new().is_ok());
}
