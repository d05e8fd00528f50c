//! Character-level text primitives: token search, inline span removal,
//! line splitting and rendering.
//!
//! Everything here is stated over `Seq<char>`, the view of `str` and `String`.

use vstd::prelude::*;
use vstd::string::*;

verus! {

/// `tok` occurs in `s` at index `i`.
pub open spec fn occurs_at(s: Seq<char>, tok: Seq<char>, i: int) -> bool {
    &&& 0 <= i
    &&& i + tok.len() <= s.len()
    &&& s.subrange(i, i + tok.len()) == tok
}

/// Index of the first occurrence of `tok` in `s` at or after `from`.
pub open spec fn find_from(s: Seq<char>, tok: Seq<char>, from: int) -> Option<int>
    decreases s.len() + 1 - from,
{
    if from < 0 || from + tok.len() > s.len() {
        None
    } else if occurs_at(s, tok, from) {
        Some(from)
    } else {
        find_from(s, tok, from + 1)
    }
}

/// `tok` occurs somewhere in `s`.
pub open spec fn has_token(s: Seq<char>, tok: Seq<char>) -> bool {
    exists|i: int| occurs_at(s, tok, i)
}

/// `find_from` returns the least occurrence at or after `from`, and `None`
/// exactly when there is none.
pub proof fn lemma_find_from(s: Seq<char>, tok: Seq<char>, from: int)
    requires
        0 <= from,
    ensures
        match find_from(s, tok, from) {
            Some(i) => {
                &&& from <= i
                &&& occurs_at(s, tok, i)
                &&& forall|j: int| from <= j < i ==> !occurs_at(s, tok, j)
            },
            None => forall|j: int| from <= j ==> !occurs_at(s, tok, j),
        },
    decreases s.len() + 1 - from,
{
    if from + tok.len() > s.len() {
    } else if occurs_at(s, tok, from) {
    } else {
        lemma_find_from(s, tok, from + 1);
    }
}

/// A token occurs in a text exactly if the search from the start finds it.
pub proof fn lemma_has_token(s: Seq<char>, tok: Seq<char>)
    ensures
        has_token(s, tok) <==> find_from(s, tok, 0) is Some,
{
    lemma_find_from(s, tok, 0);
}

/// The characters of `s`, in order.
pub fn chars_of(s: &str) -> (v: Vec<char>)
    ensures
        v@ == s@,
{
    let mut v: Vec<char> = Vec::new();
    for c in it: s.chars()
        invariant
            v@ == it.seq().take(it.index() as int),
    {
        v.push(c);
    }
    v
}

/// Whether `tok` occurs in `hay` at index `at`.
pub fn token_at(hay: &Vec<char>, tok: &Vec<char>, at: usize) -> (r: bool)
    ensures
        r == occurs_at(hay@, tok@, at as int),
{
    if tok.len() > hay.len() || at > hay.len() - tok.len() {
        return false;
    }
    let mut k: usize = 0;
    while k < tok.len()
        invariant
            k <= tok.len(),
            at + tok.len() <= hay.len(),
            forall|j: int| 0 <= j < k ==> hay@[at + j] == tok@[j],
        decreases tok.len() - k,
    {
        if hay[at + k] != tok[k] {
            assert(hay@.subrange(at as int, at + tok.len())[k as int] != tok@[k as int]);
            return false;
        }
        k += 1;
    }
    assert(hay@.subrange(at as int, at + tok.len()) =~= tok@);
    true
}

/// First index at or after `from` where `tok` occurs in `hay`.
pub fn find_token(hay: &Vec<char>, tok: &Vec<char>, from: usize) -> (r: Option<usize>)
    ensures
        match r {
            Some(i) => find_from(hay@, tok@, from as int) == Some(i as int),
            None => find_from(hay@, tok@, from as int) is None,
        },
{
    if tok.len() > hay.len() {
        return None;
    }
    let last: usize = hay.len() - tok.len();
    let mut i: usize = from;
    while i <= last
        invariant
            from <= i,
            last == hay.len() - tok.len(),
            find_from(hay@, tok@, from as int) == find_from(hay@, tok@, i as int),
        decreases last + 1 - i,
    {
        if token_at(hay, tok, i) {
            return Some(i);
        }
        if i == last {
            assert(find_from(hay@, tok@, i + 1) is None);
            return None;
        }
        i += 1;
    }
    None
}

/// Whether `tok` occurs somewhere in `hay`.
pub fn contains_token(hay: &Vec<char>, tok: &Vec<char>) -> (r: bool)
    ensures
        r == has_token(hay@, tok@),
{
    proof {
        lemma_has_token(hay@, tok@);
    }
    find_token(hay, tok, 0).is_some()
}

/// The token that opens an inline delete span.
pub open spec fn inline_opener() -> Seq<char> {
    "/*!!"@
}

/// The token that closes a block comment, and with it an inline delete span.
pub open spec fn block_closer() -> Seq<char> {
    "*/"@
}

/// Lengths of the two span tokens.
pub proof fn lemma_span_tokens()
    ensures
        inline_opener().len() == 4,
        block_closer().len() == 2,
{
    reveal_strlit("/*!!");
    reveal_strlit("*/");
}

/// The first inline delete span of `s` as a half-open index range: from the
/// first opener to the end of the first closer that follows it.
pub open spec fn first_span(s: Seq<char>) -> Option<(int, int)> {
    match find_from(s, inline_opener(), 0) {
        Some(a) => match find_from(s, block_closer(), a + inline_opener().len()) {
            Some(c) => Some((a, c + block_closer().len())),
            None => None,
        },
        None => None,
    }
}

/// A span lies inside the text and is at least as long as its two tokens.
pub proof fn lemma_first_span(s: Seq<char>)
    ensures
        first_span(s) matches Some((a, b)) ==> 0 <= a && a + 6 <= b <= s.len(),
{
    lemma_span_tokens();
    lemma_find_from(s, inline_opener(), 0);
    if let Some(a) = find_from(s, inline_opener(), 0) {
        lemma_find_from(s, block_closer(), a + 4);
    }
}

/// `s` with every inline delete span removed: the first span is cut out and
/// the search starts over on what is left, until no opener with a closer
/// behind it remains.
pub open spec fn strip_inline(s: Seq<char>) -> Seq<char>
    decreases s.len(),
{
    match first_span(s) {
        Some((a, b)) => {
            proof {
                lemma_first_span(s);
            }
            strip_inline(s.subrange(0, a) + s.subrange(b, s.len() as int))
        },
        None => s,
    }
}

/// Removes every inline delete span from `line`.
pub fn strip_inline_spans(line: &str) -> (out: String)
    ensures
        out@ == strip_inline(line@),
{
    let opener = chars_of("/*!!");
    let closer = chars_of("*/");
    let mut cur: String = line.to_owned();
    loop
        invariant
            opener@ == inline_opener(),
            closer@ == block_closer(),
            strip_inline(cur@) == strip_inline(line@),
        decreases cur@.len(),
    {
        let v = chars_of(cur.as_str());
        let n: usize = v.len();
        proof {
            lemma_span_tokens();
            lemma_find_from(v@, opener@, 0);
        }
        let a = match find_token(&v, &opener, 0) {
            Some(a) => a,
            None => { return cur; },
        };
        proof {
            lemma_find_from(v@, closer@, a + 4);
        }
        let c = match find_token(&v, &closer, a + 4) {
            Some(c) => c,
            None => { return cur; },
        };
        let head = cur.as_str().substring_char(0, a);
        let tail = cur.as_str().substring_char(c + 2, n);
        let mut next = head.to_owned();
        next.append(tail);
        cur = next;
    }
}

/// Index of the first line feed of `s` at or after `from`, or the length of
/// `s` when there is none.
pub open spec fn line_end(s: Seq<char>, from: int) -> int
    decreases s.len() - from,
{
    if from < 0 || from >= s.len() {
        s.len() as int
    } else if s[from] == '\n' {
        from
    } else {
        line_end(s, from + 1)
    }
}

/// `line_end` lies between `from` and the end of the text, no line feed
/// stands before it, and one stands at it unless it is the end.
pub proof fn lemma_line_end(s: Seq<char>, from: int)
    requires
        0 <= from <= s.len(),
    ensures
        from <= line_end(s, from) <= s.len(),
        forall|j: int| from <= j < line_end(s, from) ==> s[j] != '\n',
        line_end(s, from) < s.len() ==> s[line_end(s, from)] == '\n',
    decreases s.len() - from,
{
    if from < s.len() && s[from] != '\n' {
        lemma_line_end(s, from + 1);
    }
}

/// `l` without one trailing carriage return.
pub open spec fn trim_cr(l: Seq<char>) -> Seq<char> {
    if l.len() > 0 && l.last() == '\r' {
        l.drop_last()
    } else {
        l
    }
}

/// The lines of `s` from index `from` on. A line ends at a line feed; a
/// carriage return directly before that line feed belongs to the line ending.
/// The last line needs no line feed, and an empty rest holds no line.
pub open spec fn lines_from(s: Seq<char>, from: int) -> Seq<Seq<char>>
    decreases s.len() - from,
{
    if from < 0 || from >= s.len() {
        seq![]
    } else {
        let e = line_end(s, from);
        if e < s.len() {
            proof {
                lemma_line_end(s, from);
            }
            seq![trim_cr(s.subrange(from, e))] + lines_from(s, e + 1)
        } else {
            seq![s.subrange(from, e)]
        }
    }
}

/// The lines of `s`.
pub open spec fn lines_of(s: Seq<char>) -> Seq<Seq<char>> {
    lines_from(s, 0)
}

/// The text that holds each of `lines` followed by a line feed.
pub open spec fn render(lines: Seq<Seq<char>>) -> Seq<char>
    decreases lines.len(),
{
    if lines.len() == 0 {
        seq![]
    } else {
        render(lines.drop_last()) + lines.last() + seq!['\n']
    }
}

/// Splits `text` into its lines.
pub fn split_lines(text: &str) -> (lines: Vec<String>)
    ensures
        lines.deep_view() == lines_of(text@),
{
    let v = chars_of(text);
    let n: usize = v.len();
    let mut lines: Vec<String> = Vec::new();
    let mut start: usize = 0;
    while start < n
        invariant
            v@ == text@,
            n == v@.len(),
            start <= n,
            lines.deep_view() + lines_from(v@, start as int) == lines_of(v@),
        decreases n - start,
    {
        let mut e: usize = start;
        while e < n && v[e] != '\n'
            invariant
                n == v@.len(),
                start <= e <= n,
                line_end(v@, start as int) == line_end(v@, e as int),
            decreases n - e,
        {
            e += 1;
        }
        let ghost before = lines.deep_view();
        if e < n {
            let stop: usize = if e > start && v[e - 1] == '\r' { e - 1 } else { e };
            let line = text.substring_char(start, stop);
            assert(line@ == trim_cr(v@.subrange(start as int, e as int)));
            lines.push(line.to_owned());
            assert(lines.deep_view() == before.push(line@));
            start = e + 1;
        } else {
            let line = text.substring_char(start, n);
            lines.push(line.to_owned());
            assert(lines.deep_view() == before.push(line@));
            start = n;
        }
    }
    lines
}

/// Joins `lines` into one text, each line followed by a line feed.
pub fn render_lines(lines: &Vec<String>) -> (out: String)
    ensures
        out@ == render(lines.deep_view()),
{
    let mut out = String::new();
    let mut i: usize = 0;
    while i < lines.len()
        invariant
            i <= lines.len(),
            out@ == render(lines.deep_view().take(i as int)),
        decreases lines.len() - i,
    {
        proof {
            reveal_strlit("\n");
            assert(lines.deep_view().take(i + 1).drop_last() == lines.deep_view().take(i as int));
            assert(lines.deep_view().take(i + 1).last() == lines[i as int]@);
            assert("\n"@ == seq!['\n']);
        }
        out.append(lines[i].as_str());
        out.append("\n");
        i += 1;
    }
    assert(lines.deep_view().take(i as int) == lines.deep_view());
    out
}

/// `line` holds no line feed.
pub open spec fn feed_free(line: Seq<char>) -> bool {
    forall|j: int| 0 <= j < line.len() ==> line[j] != '\n'
}

/// `line` ends with a carriage return.
pub open spec fn ends_with_cr(line: Seq<char>) -> bool {
    line.len() > 0 && line.last() == '\r'
}

/// `text` is empty or ends with a line feed.
pub open spec fn terminated(text: Seq<char>) -> bool {
    text.len() == 0 || text.last() == '\n'
}

/// The index that has a line feed, or is the end, and has no line feed
/// between `from` and itself, is `line_end`.
pub proof fn lemma_line_end_is(s: Seq<char>, from: int, e: int)
    requires
        0 <= from <= e <= s.len(),
        forall|j: int| from <= j < e ==> s[j] != '\n',
        e < s.len() ==> s[e] == '\n',
    ensures
        line_end(s, from) == e,
    decreases e - from,
{
    if from < e {
        lemma_line_end_is(s, from + 1, e);
    }
}

/// No line of a text holds a line feed.
pub proof fn lemma_lines_feed_free(s: Seq<char>, from: int)
    requires
        0 <= from,
    ensures
        forall|i: int| 0 <= i < lines_from(s, from).len() ==> feed_free(#[trigger] lines_from(s, from)[i]),
    decreases s.len() - from,
{
    if from < s.len() {
        let e = line_end(s, from);
        lemma_line_end(s, from);
        let whole = s.subrange(from, e);
        assert(feed_free(whole));
        assert(feed_free(trim_cr(whole)));
        if e < s.len() {
            lemma_lines_feed_free(s, e + 1);
            let rest = lines_from(s, e + 1);
            assert forall|i: int| 0 <= i < lines_from(s, from).len() implies feed_free(
                #[trigger] lines_from(s, from)[i],
            ) by {
                if i > 0 {
                    assert(lines_from(s, from)[i] == rest[i - 1]);
                }
            }
        }
    }
}

/// A text has at most as many lines as characters.
pub proof fn lemma_lines_count(s: Seq<char>, from: int)
    requires
        0 <= from <= s.len(),
    ensures
        lines_from(s, from).len() <= s.len() - from,
    decreases s.len() - from,
{
    if from < s.len() {
        let e = line_end(s, from);
        lemma_line_end(s, from);
        if e < s.len() {
            lemma_lines_count(s, e + 1);
        }
    }
}

/// Stripping inline spans brings no line feed into a line.
pub proof fn lemma_strip_feed_free(s: Seq<char>)
    requires
        feed_free(s),
    ensures
        feed_free(strip_inline(s)),
    decreases s.len(),
{
    lemma_first_span(s);
    if let Some((a, b)) = first_span(s) {
        let cut = s.subrange(0, a) + s.subrange(b, s.len() as int);
        assert forall|j: int| 0 <= j < cut.len() implies cut[j] != '\n' by {
            if j < a {
                assert(cut[j] == s[j]);
            } else {
                assert(cut[j] == s[b + j - a]);
            }
        }
        lemma_strip_feed_free(cut);
    }
}

/// Adding a line and its line feed behind a terminated text adds that line
/// to its lines, if the line holds no line feed and does not end with a
/// carriage return.
pub proof fn lemma_lines_with_line(text: Seq<char>, line: Seq<char>, from: int)
    requires
        terminated(text),
        feed_free(line),
        !ends_with_cr(line),
        0 <= from <= text.len(),
    ensures
        lines_from(text + line + seq!['\n'], from) == lines_from(text, from).push(line),
    decreases text.len() - from,
{
    let longer = text + line + seq!['\n'];
    if from == text.len() {
        let e = from + line.len();
        assert forall|j: int| from <= j < e implies longer[j] != '\n' by {
            assert(longer[j] == line[j - from]);
        }
        lemma_line_end_is(longer, from, e);
        assert(longer.subrange(from, e) =~= line);
        assert(lines_from(longer, e + 1) =~= Seq::<Seq<char>>::empty());
        assert(lines_from(text, from) =~= Seq::<Seq<char>>::empty());
        assert(lines_from(longer, from) =~= lines_from(text, from).push(line));
    } else {
        let e = line_end(text, from);
        lemma_line_end(text, from);
        assert(e < text.len()) by {
            if e == text.len() {
                assert(text[text.len() - 1] != '\n');
            }
        }
        assert forall|j: int| from <= j < e implies longer[j] != '\n' by {
            assert(longer[j] == text[j]);
        }
        assert(longer[e] == text[e]);
        lemma_line_end_is(longer, from, e);
        assert(longer.subrange(from, e) =~= text.subrange(from, e));
        lemma_lines_with_line(text, line, e + 1);
        assert(lines_from(longer, from) =~= lines_from(text, from).push(line));
    }
}

/// A rendered text is terminated.
pub proof fn lemma_render_terminated(lines: Seq<Seq<char>>)
    ensures
        terminated(render(lines)),
{
}

/// Rendering lines and splitting the text again gives the lines back, if
/// none of them holds a line feed or ends with a carriage return.
pub proof fn lemma_lines_of_render(lines: Seq<Seq<char>>)
    requires
        forall|i: int| 0 <= i < lines.len() ==> feed_free(#[trigger] lines[i]) && !ends_with_cr(lines[i]),
    ensures
        lines_of(render(lines)) == lines,
    decreases lines.len(),
{
    if lines.len() == 0 {
        assert(lines_of(render(lines)) =~= lines);
    } else {
        let shorter = lines.drop_last();
        assert forall|i: int| 0 <= i < shorter.len() implies feed_free(#[trigger] shorter[i])
            && !ends_with_cr(shorter[i]) by {
            assert(shorter[i] == lines[i]);
        }
        lemma_lines_of_render(shorter);
        lemma_render_terminated(shorter);
        assert(feed_free(lines[lines.len() - 1]) && !ends_with_cr(lines[lines.len() - 1]));
        lemma_lines_with_line(render(shorter), lines.last(), 0);
        assert(shorter.push(lines.last()) =~= lines);
    }
}

} // verus!
