//! The state file as text: its lines, the last one, and the text without it.
//! A line runs up to and including its `\n`; the last one may lack it.
use vstd::prelude::*;
use vstd::string::*;

verus! {

/// The length of the text up to and including its last `\n`, or 0 if it has none.
pub open spec fn last_break_end(s: Seq<char>) -> int
    decreases s.len(),
{
    if s.len() == 0 {
        0
    } else if s.last() == '\n' {
        s.len() as int
    } else {
        last_break_end(s.drop_last())
    }
}

/// The text without the `\n` that ends it, if it ends in one.
pub open spec fn body(t: Seq<char>) -> Seq<char> {
    if t.len() > 0 && t.last() == '\n' {
        t.drop_last()
    } else {
        t
    }
}

/// Where the last line of the text begins.
pub open spec fn last_line_start(t: Seq<char>) -> int {
    last_break_end(body(t))
}

/// The last line of the text with its terminator; empty for an empty text.
pub open spec fn last_line_of(t: Seq<char>) -> Seq<char> {
    t.subrange(last_line_start(t), t.len() as int)
}

/// The text without its last line; every other line is kept as it was.
pub open spec fn without_last_line(t: Seq<char>) -> Seq<char> {
    t.subrange(0, last_line_start(t))
}

/// A text that is empty or ends in `\n`: appending a line starts a new one.
pub open spec fn ends_cleanly(t: Seq<char>) -> bool {
    t.len() == 0 || t.last() == '\n'
}

/// One line: a `\n` at its end and nowhere else.
pub open spec fn is_line(l: Seq<char>) -> bool {
    &&& l.len() > 0
    &&& l.last() == '\n'
    &&& forall|i: int| 0 <= i < l.len() - 1 ==> l[i] != '\n'
}

pub proof fn lemma_last_break_end_bounds(s: Seq<char>)
    ensures
        0 <= last_break_end(s) <= s.len(),
        last_break_end(s) > 0 ==> s[last_break_end(s) - 1] == '\n',
        forall|i: int| last_break_end(s) <= i < s.len() ==> s[i] != '\n',
    decreases s.len(),
{
    if s.len() > 0 && s.last() != '\n' {
        lemma_last_break_end_bounds(s.drop_last());
        assert forall|i: int| last_break_end(s) <= i < s.len() implies s[i] != '\n' by {
            if i < s.len() - 1 {
                assert(s[i] == s.drop_last()[i]);
            }
        }
    }
}

/// The last break of `a + b` is the end of `a` when `a` ends cleanly and `b`
/// holds no `\n`.
pub proof fn lemma_last_break_after(a: Seq<char>, b: Seq<char>)
    requires
        ends_cleanly(a),
        forall|i: int| 0 <= i < b.len() ==> b[i] != '\n',
    ensures
        last_break_end(a + b) == a.len(),
    decreases b.len(),
{
    if b.len() == 0 {
        assert(a + b =~= a);
    } else {
        assert((a + b).drop_last() =~= a + b.drop_last());
        lemma_last_break_after(a, b.drop_last());
    }
}

/// Appending one line to a text that ends cleanly makes that line the last
/// one and keeps the text before it.
pub proof fn lemma_append_line(t: Seq<char>, l: Seq<char>)
    requires
        ends_cleanly(t),
        is_line(l),
    ensures
        last_line_of(t + l) == l,
        without_last_line(t + l) == t,
{
    let s = t + l;
    assert(body(s) =~= t + l.drop_last());
    lemma_last_break_after(t, l.drop_last());
    assert(s.subrange(t.len() as int, s.len() as int) =~= l);
    assert(s.subrange(0, t.len() as int) =~= t);
}

/// The text without its last line ends cleanly.
pub proof fn lemma_without_last_ends_cleanly(t: Seq<char>)
    ensures
        ends_cleanly(without_last_line(t)),
{
    lemma_last_break_end_bounds(body(t));
}

/// The number of line breaks in the text.
pub open spec fn count_breaks(s: Seq<char>) -> nat
    decreases s.len(),
{
    if s.len() == 0 {
        0
    } else {
        count_breaks(s.drop_last()) + if s.last() == '\n' { 1nat } else { 0nat }
    }
}

/// The number of lines of the text; a last line without its `\n` counts.
pub open spec fn line_count(t: Seq<char>) -> nat {
    if t.len() == 0 {
        0
    } else {
        count_breaks(body(t)) + 1
    }
}

proof fn lemma_count_breaks_append(a: Seq<char>, b: Seq<char>)
    requires
        forall|i: int| 0 <= i < b.len() ==> b[i] != '\n',
    ensures
        count_breaks(a + b) == count_breaks(a),
    decreases b.len(),
{
    if b.len() == 0 {
        assert(a + b =~= a);
    } else {
        assert((a + b).drop_last() =~= a + b.drop_last());
        lemma_count_breaks_append(a, b.drop_last());
    }
}

/// Replacing the last line of a non-empty text by one line keeps the number
/// of lines.
pub proof fn lemma_replace_last_line(t: Seq<char>, l: Seq<char>)
    requires
        t.len() > 0,
        is_line(l),
    ensures
        line_count(without_last_line(t) + l) == line_count(t),
{
    let b = body(t);
    let start = last_line_start(t);
    let w = without_last_line(t);
    lemma_last_break_end_bounds(b);
    assert(b =~= w + b.subrange(start, b.len() as int));
    lemma_count_breaks_append(w, b.subrange(start, b.len() as int));
    assert(body(w + l) =~= w + l.drop_last());
    lemma_count_breaks_append(w, l.drop_last());
}

/// The last line of `text`, with its terminator; empty for an empty text.
pub fn last_line(text: &str) -> (r: String)
    ensures
        r@ == last_line_of(text@),
{
    let start = last_line_index(text);
    let n = text.unicode_len();
    String::from_str(text.substring_char(start, n))
}

/// `text` without its last line.
pub fn drop_last_line(text: &str) -> (r: String)
    ensures
        r@ == without_last_line(text@),
{
    let start = last_line_index(text);
    String::from_str(text.substring_char(0, start))
}

fn last_line_index(text: &str) -> (r: usize)
    ensures
        r == last_line_start(text@),
        r <= text@.len(),
{
    let n = text.unicode_len();
    let ghost b = body(text@);
    let end: usize = if n > 0 && text.get_char(n - 1) == '\n' { n - 1 } else { n };
    assert(b =~= text@.subrange(0, end as int));
    let mut j: usize = end;
    while j > 0 && text.get_char(j - 1) != '\n'
        invariant
            j <= end <= n,
            n == text@.len(),
            b == text@.subrange(0, end as int),
            last_break_end(b) == last_break_end(text@.subrange(0, j as int)),
        decreases j,
    {
        assert(text@.subrange(0, j as int).drop_last() =~= text@.subrange(0, j as int - 1));
        j = j - 1;
    }
    j
}

} // verus!
