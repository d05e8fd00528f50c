//! The pattern matcher: stateless predicates over one line of text.
//!
//! Six of the seven predicates are regular expressions, compiled once by the
//! `regex` crate and held in [`Patterns`]. Whether a pattern compiles and
//! what it matches are functions of the strings alone, and the contracts
//! speak of them under the names [`regex_compiles`] and [`regex_is_match`].

use vstd::prelude::*;
use crate::error::FilterError;
use crate::text::{chars_of, contains_token, has_token, inline_opener};

verus! {

/// The error that the `regex` crate gives for a pattern it does not compile.
/// Nothing is read from it: it is turned into `PatternCompileFailure`.
#[verifier::external_type_specification]
#[verifier::external_body]
pub struct ExRegexError(regex::Error);

/// A compiled regular expression of the `regex` crate, carried as it is.
#[verifier::external_type_specification]
#[verifier::external_body]
pub struct ExRegex(regex::Regex);

/// A regular expression that has been compiled. Only `compile` makes one,
/// so each holds an expression that `regex::Regex::new` built, with the
/// default options.
pub struct Compiled {
    regex: regex::Regex,
}

/// Whether `regex::Regex::new` compiles `pattern`.
pub uninterp spec fn regex_compiles(pattern: Seq<char>) -> bool;

/// Whether the regular expression `pattern`, compiled with the default
/// options, matches anywhere in `haystack`: the answer of
/// `regex::Regex::is_match`.
pub uninterp spec fn regex_is_match(pattern: Seq<char>, haystack: Seq<char>) -> bool;

/// The pattern that `compiled` was made of: what `regex::Regex::as_str`
/// returns for it.
pub uninterp spec fn compiled_source(compiled: Compiled) -> Seq<char>;

/// Compiles `pattern` with `regex::Regex::new`. Not verified: the contract
/// claims that the call succeeds exactly on the patterns named by
/// [`regex_compiles`], which depends on the pattern only, and that the
/// compiled expression keeps the pattern it was made of.
#[verifier::external_body]
fn compile(pattern: &str) -> (r: Result<Compiled, regex::Error>)
    ensures
        r is Ok <==> regex_compiles(pattern@),
        r matches Ok(compiled) ==> compiled_source(compiled) == pattern@,
{
    match regex::Regex::new(pattern) {
        Ok(regex) => Ok(Compiled { regex }),
        Err(e) => Err(e),
    }
}

/// Searches `haystack` with `regex::Regex::is_match`. Not verified: the
/// contract claims that the answer is the one named [`regex_is_match`] for
/// the pattern that `compiled` was made of, which depends on the two strings
/// only.
#[verifier::external_body]
fn compiled_is_match(compiled: &Compiled, haystack: &str) -> (found: bool)
    ensures
        found == regex_is_match(compiled_source(*compiled), haystack@),
{
    compiled.regex.is_match(haystack)
}

/// What the six regular expressions say of one line.
#[derive(Clone, Copy, Debug, PartialEq, Eq, Structural)]
pub struct LineMarks {
    /// The line is a lone line comment.
    pub comment: bool,
    /// The line opens a Todo block.
    pub opens_todo: bool,
    /// The line opens a Fix block.
    pub opens_fix: bool,
    /// The line opens a Purge block.
    pub opens_purge: bool,
    /// The line closes a Purge block.
    pub closes_purge: bool,
    /// The line starts with the block-comment closer.
    pub closes_block: bool,
}

/// Optional white space, the line-comment token, optional white space, at
/// the start of the line.
pub open spec fn comment_pattern() -> Seq<char> {
    "^\\s*//\\s*"@
}

/// The block-comment opener followed by the tag `TODO`, anywhere in the line.
pub open spec fn todo_pattern() -> Seq<char> {
    "\\s*/\\*\\s*TODO"@
}

/// The block-comment opener followed by the tag `FIX`, anywhere in the line.
pub open spec fn fix_pattern() -> Seq<char> {
    "\\s*/\\*\\s*FIX"@
}

/// A line comment that begins with the tag `PURGE`.
pub open spec fn purge_pattern() -> Seq<char> {
    "^\\s*//\\s*PURGE"@
}

/// A line comment that begins with the tag `ENDPURGE`.
pub open spec fn endpurge_pattern() -> Seq<char> {
    "^\\s*//\\s*ENDPURGE"@
}

/// Optional white space, then the block-comment closer, at the start of the
/// line.
pub open spec fn block_end_pattern() -> Seq<char> {
    "^\\s*\\*/"@
}

/// The marks of `line`: each pattern's verdict on it.
pub open spec fn marks_of(line: Seq<char>) -> LineMarks {
    LineMarks {
        comment: regex_is_match(comment_pattern(), line),
        opens_todo: regex_is_match(todo_pattern(), line),
        opens_fix: regex_is_match(fix_pattern(), line),
        opens_purge: regex_is_match(purge_pattern(), line),
        closes_purge: regex_is_match(endpurge_pattern(), line),
        closes_block: regex_is_match(block_end_pattern(), line),
    }
}

/// A line together with its marks.
#[derive(Debug)]
pub struct MarkedLine {
    pub text: String,
    pub marks: LineMarks,
}

/// The mathematical value of a [`MarkedLine`].
pub struct MarkedLineView {
    pub text: Seq<char>,
    pub marks: LineMarks,
}

impl View for MarkedLine {
    type V = MarkedLineView;

    open spec fn view(&self) -> MarkedLineView {
        MarkedLineView { text: self.text@, marks: self.marks }
    }
}

impl DeepView for MarkedLine {
    type V = MarkedLineView;

    open spec fn deep_view(&self) -> MarkedLineView {
        self@
    }
}

/// Each of `lines` with the marks that the patterns give it.
pub open spec fn marked(lines: Seq<Seq<char>>) -> Seq<MarkedLineView> {
    Seq::new(lines.len(), |i: int| MarkedLineView { text: lines[i], marks: marks_of(lines[i]) })
}

/// All six patterns compile.
pub open spec fn patterns_compile() -> bool {
    &&& regex_compiles(comment_pattern())
    &&& regex_compiles(todo_pattern())
    &&& regex_compiles(fix_pattern())
    &&& regex_compiles(purge_pattern())
    &&& regex_compiles(endpurge_pattern())
    &&& regex_compiles(block_end_pattern())
}

/// Whether `line` holds the opener of an inline delete span.
pub fn contains_inline_delete_span(line: &str) -> (found: bool)
    ensures
        found == has_token(line@, inline_opener()),
{
    let v = chars_of(line);
    let opener = chars_of("/*!!");
    contains_token(&v, &opener)
}

/// The six patterns, compiled. They are built once and handed to the scan by
/// reference.
pub struct Patterns {
    comment: Compiled,
    todo: Compiled,
    fix: Compiled,
    purge: Compiled,
    endpurge: Compiled,
    block_end: Compiled,
}

impl Patterns {
    /// Each compiled expression was made of the pattern of its name.
    #[verifier::type_invariant]
    spec fn holds_the_patterns(self) -> bool {
        &&& compiled_source(self.comment) == comment_pattern()
        &&& compiled_source(self.todo) == todo_pattern()
        &&& compiled_source(self.fix) == fix_pattern()
        &&& compiled_source(self.purge) == purge_pattern()
        &&& compiled_source(self.endpurge) == endpurge_pattern()
        &&& compiled_source(self.block_end) == block_end_pattern()
    }

    /// Compiles the six patterns. This fails exactly if one of them does not
    /// compile.
    pub fn new() -> (r: Result<Patterns, FilterError>)
        ensures
            r is Ok <==> patterns_compile(),
            r matches Err(e) ==> e == FilterError::PatternCompileFailure,
    {
        let comment = compile_pattern("^\\s*//\\s*")?;
        let todo = compile_pattern("\\s*/\\*\\s*TODO")?;
        let fix = compile_pattern("\\s*/\\*\\s*FIX")?;
        let purge = compile_pattern("^\\s*//\\s*PURGE")?;
        let endpurge = compile_pattern("^\\s*//\\s*ENDPURGE")?;
        let block_end = compile_pattern("^\\s*\\*/")?;
        Ok(Patterns { comment, todo, fix, purge, endpurge, block_end })
    }

    /// Whether `line` is an ordinary line comment.
    pub fn is_comment_line(&self, line: &str) -> (found: bool)
        ensures
            found == marks_of(line@).comment,
    {
        proof {
            use_type_invariant(self);
        }
        compiled_is_match(&self.comment, line)
    }

    /// Whether `line` opens a Todo block.
    pub fn opens_todo_block(&self, line: &str) -> (found: bool)
        ensures
            found == marks_of(line@).opens_todo,
    {
        proof {
            use_type_invariant(self);
        }
        compiled_is_match(&self.todo, line)
    }

    /// Whether `line` opens a Fix block.
    pub fn opens_fix_block(&self, line: &str) -> (found: bool)
        ensures
            found == marks_of(line@).opens_fix,
    {
        proof {
            use_type_invariant(self);
        }
        compiled_is_match(&self.fix, line)
    }

    /// Whether `line` opens a Purge block.
    pub fn opens_purge_block(&self, line: &str) -> (found: bool)
        ensures
            found == marks_of(line@).opens_purge,
    {
        proof {
            use_type_invariant(self);
        }
        compiled_is_match(&self.purge, line)
    }

    /// Whether `line` closes a Purge block.
    pub fn closes_purge_block(&self, line: &str) -> (found: bool)
        ensures
            found == marks_of(line@).closes_purge,
    {
        proof {
            use_type_invariant(self);
        }
        compiled_is_match(&self.endpurge, line)
    }

    /// Whether `line` starts with the block-comment closer.
    pub fn closes_block_comment(&self, line: &str) -> (found: bool)
        ensures
            found == marks_of(line@).closes_block,
    {
        proof {
            use_type_invariant(self);
        }
        compiled_is_match(&self.block_end, line)
    }

    /// Runs the six patterns on `line`.
    pub fn classify(&self, line: &str) -> (marks: LineMarks)
        ensures
            marks == marks_of(line@),
    {
        LineMarks {
            comment: self.is_comment_line(line),
            opens_todo: self.opens_todo_block(line),
            opens_fix: self.opens_fix_block(line),
            opens_purge: self.opens_purge_block(line),
            closes_purge: self.closes_purge_block(line),
            closes_block: self.closes_block_comment(line),
        }
    }

    /// Runs the six patterns on each of `lines`.
    pub fn classify_all(&self, lines: &Vec<String>) -> (doc: Vec<MarkedLine>)
        ensures
            doc.deep_view() == marked(lines.deep_view()),
    {
        let mut doc: Vec<MarkedLine> = Vec::new();
        let mut i: usize = 0;
        while i < lines.len()
            invariant
                i <= lines.len(),
                doc.len() == i,
                forall|j: int|
                    0 <= j < i ==> (#[trigger] doc[j])@ == (MarkedLineView {
                        text: lines[j]@,
                        marks: marks_of(lines[j]@),
                    }),
            decreases lines.len() - i,
        {
            let marks = self.classify(lines[i].as_str());
            doc.push(MarkedLine { text: lines[i].clone(), marks });
            i += 1;
        }
        assert(doc.deep_view() =~= marked(lines.deep_view()));
        doc
    }
}

/// Compiles `pattern`; one that does not compile is reported as
/// `PatternCompileFailure`.
fn compile_pattern(pattern: &str) -> (r: Result<Compiled, FilterError>)
    ensures
        r is Ok <==> regex_compiles(pattern@),
        r matches Ok(compiled) ==> compiled_source(compiled) == pattern@,
        r matches Err(e) ==> e == FilterError::PatternCompileFailure,
{
    match compile(pattern) {
        Ok(compiled) => Ok(compiled),
        Err(_) => Err(FilterError::PatternCompileFailure),
    }
}

} // verus!
