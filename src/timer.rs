//! The current timer, read from the last line of the state file, and the
//! decisions of the `start` and `stop` commands.
use vstd::prelude::*;
use vstd::string::*;
use crate::stamp::{Stamp, rfc2822_parse, parse_rfc2822};
use crate::store::{last_line_of, last_line};

verus! {

/// Why the last line of the state file, which starts with the marker, does not
/// hold a timer.
#[derive(Clone, Copy, PartialEq, Eq, Structural, Debug)]
pub enum TimerError {
    /// Nothing follows the marker.
    MissingName,
    /// Nothing follows the name.
    MissingStart,
    /// The start is not an RFC 2822 date-time.
    BadStart,
}

/// A running timer: its name and the instant it was started.
#[derive(Debug)]
pub struct Timer {
    pub name: String,
    pub start: Stamp,
}

/// The word that opens the line of a running timer.
pub open spec fn marker() -> Seq<char> {
    "Current:"@
}

/// The index of the first space at or after `from`, or the length if none.
pub open spec fn space_from(s: Seq<char>, from: int) -> int
    decreases s.len() - from,
{
    if from >= s.len() {
        s.len() as int
    } else if s[from] == ' ' {
        from
    } else {
        space_from(s, from + 1)
    }
}

/// The first space at or after `from` lies between `from` and the end, and
/// no space comes before it.
pub proof fn lemma_space_from(s: Seq<char>, from: int)
    requires
        0 <= from <= s.len(),
    ensures
        from <= space_from(s, from) <= s.len(),
        space_from(s, from) < s.len() ==> s[space_from(s, from)] == ' ',
        forall|i: int| from <= i < space_from(s, from) ==> s[i] != ' ',
    decreases s.len() - from,
{
    if from < s.len() && s[from] != ' ' {
        lemma_space_from(s, from + 1);
    }
}

/// White space as `char::is_whitespace` has it.
pub open spec fn is_white(c: char) -> bool {
    let u = c as u32;
    (9 <= u <= 13) || u == 32 || u == 0x85 || u == 0xA0 || u == 0x1680
        || (0x2000 <= u <= 0x200A) || u == 0x2028 || u == 0x2029 || u == 0x202F
        || u == 0x205F || u == 0x3000
}

pub open spec fn trim_front(s: Seq<char>) -> Seq<char>
    decreases s.len(),
{
    if s.len() > 0 && is_white(s[0]) {
        trim_front(s.drop_first())
    } else {
        s
    }
}

pub open spec fn trim_back(s: Seq<char>) -> Seq<char>
    decreases s.len(),
{
    if s.len() > 0 && is_white(s.last()) {
        trim_back(s.drop_last())
    } else {
        s
    }
}

/// The text without white space at either end.
pub open spec fn trim(s: Seq<char>) -> Seq<char> {
    trim_back(trim_front(s))
}

/// What a line says of the current timer. The line splits at its first two
/// spaces into a marker, a name and the rest; when the marker is not
/// `Current:` no timer runs, and otherwise the rest, trimmed, must be an
/// RFC 2822 date-time.
pub open spec fn timer_of_line(s: Seq<char>) -> Result<Option<(Seq<char>, Stamp)>, TimerError> {
    let p1 = space_from(s, 0);
    if s.subrange(0, p1) != marker() {
        Ok(None)
    } else if p1 >= s.len() {
        Err(TimerError::MissingName)
    } else {
        let p2 = space_from(s, p1 + 1);
        if p2 >= s.len() {
            Err(TimerError::MissingStart)
        } else {
            match rfc2822_parse(trim(s.subrange(p2 + 1, s.len() as int))) {
                None => Err(TimerError::BadStart),
                Some(p) => Ok(Some((s.subrange(p1 + 1, p2), Stamp { secs: p.0 as i64, offset: p.1 as i32 }))),
            }
        }
    }
}

/// What the state file says of the current timer: what its last line says.
pub open spec fn current_of(state: Seq<char>) -> Result<Option<(Seq<char>, Stamp)>, TimerError> {
    timer_of_line(last_line_of(state))
}

/// Whether a result read from a line agrees with what the line says.
pub open spec fn reads_as(r: Result<Option<Timer>, TimerError>, v: Result<Option<(Seq<char>, Stamp)>, TimerError>) -> bool {
    match r {
        Ok(None) => v == Ok::<Option<(Seq<char>, Stamp)>, TimerError>(None),
        Ok(Some(t)) => v == Ok::<Option<(Seq<char>, Stamp)>, TimerError>(Some((t.name@, t.start))),
        Err(e) => v == Err::<Option<(Seq<char>, Stamp)>, TimerError>(e),
    }
}

fn space_index(s: &str, from: usize, n: usize) -> (r: usize)
    requires
        from <= n,
        n == s@.len(),
    ensures
        r == space_from(s@, from as int),
        from <= r <= n,
{
    let mut i = from;
    while i < n && s.get_char(i) != ' '
        invariant
            from <= i <= n,
            n == s@.len(),
            space_from(s@, from as int) == space_from(s@, i as int),
        decreases n - i,
    {
        i = i + 1;
    }
    i
}

fn is_marker(s: &str, p: usize) -> (r: bool)
    requires
        p <= s@.len(),
    ensures
        r == (s@.subrange(0, p as int) == marker()),
{
    proof {
        reveal_strlit("Current:");
    }
    let r = p == 8 && s.get_char(0) == 'C' && s.get_char(1) == 'u' && s.get_char(2) == 'r'
        && s.get_char(3) == 'r' && s.get_char(4) == 'e' && s.get_char(5) == 'n'
        && s.get_char(6) == 't' && s.get_char(7) == ':';
    if r {
        assert(s@.subrange(0, p as int) =~= marker());
    } else if p == 8 {
        assert(s@.subrange(0, p as int) != marker()) by {
            if s@.subrange(0, p as int) == marker() {
                assert(s@.subrange(0, p as int)[0] == 'C');
                assert(s@.subrange(0, p as int)[1] == 'u');
                assert(s@.subrange(0, p as int)[2] == 'r');
                assert(s@.subrange(0, p as int)[3] == 'r');
                assert(s@.subrange(0, p as int)[4] == 'e');
                assert(s@.subrange(0, p as int)[5] == 'n');
                assert(s@.subrange(0, p as int)[6] == 't');
                assert(s@.subrange(0, p as int)[7] == ':');
            }
        }
    } else {
        assert(marker().len() == 8);
        assert(s@.subrange(0, p as int).len() != marker().len());
    }
    r
}

fn is_white_char(c: char) -> (r: bool)
    ensures
        r == is_white(c),
{
    let u = c as u32;
    (9 <= u && u <= 13) || u == 32 || u == 0x85 || u == 0xA0 || u == 0x1680
        || (0x2000 <= u && u <= 0x200A) || u == 0x2028 || u == 0x2029 || u == 0x202F
        || u == 0x205F || u == 0x3000
}

/// `s` without white space at either end.
pub fn trim_text(s: &str) -> (r: String)
    ensures
        r@ == trim(s@),
{
    let n = s.unicode_len();
    let mut i: usize = 0;
    assert(s@.subrange(0, n as int) =~= s@);
    while i < n && is_white_char(s.get_char(i))
        invariant
            i <= n,
            n == s@.len(),
            trim_front(s@) == trim_front(s@.subrange(i as int, n as int)),
        decreases n - i,
    {
        assert(s@.subrange(i as int, n as int).drop_first() =~= s@.subrange(i + 1, n as int));
        i = i + 1;
    }
    assert(trim_front(s@) == s@.subrange(i as int, n as int));
    let mut j: usize = n;
    while j > i && is_white_char(s.get_char(j - 1))
        invariant
            i <= j <= n,
            n == s@.len(),
            trim(s@) == trim_back(s@.subrange(i as int, j as int)),
        decreases j,
    {
        assert(s@.subrange(i as int, j as int).drop_last() =~= s@.subrange(i as int, j - 1));
        j = j - 1;
    }
    String::from_str(s.substring_char(i, j))
}

/// Reads a line of the state file: the timer it holds, nothing when it does
/// not start with the marker, or why a line that does is malformed.
pub fn parse_timer_line(line: &str) -> (r: Result<Option<Timer>, TimerError>)
    ensures
        reads_as(r, timer_of_line(line@)),
{
    let n = line.unicode_len();
    let p1 = space_index(line, 0, n);
    if !is_marker(line, p1) {
        return Ok(None);
    }
    if p1 >= n {
        return Err(TimerError::MissingName);
    }
    let p2 = space_index(line, p1 + 1, n);
    if p2 >= n {
        return Err(TimerError::MissingStart);
    }
    let rest = trim_text(line.substring_char(p2 + 1, n));
    match parse_rfc2822(rest.as_str()) {
        None => Err(TimerError::BadStart),
        Some(start) => {
            let name = String::from_str(line.substring_char(p1 + 1, p2));
            Ok(Some(Timer { name, start }))
        },
    }
}

/// The timer that the state file holds: what its last line says.
pub fn get_current_timer(state: &str) -> (r: Result<Option<Timer>, TimerError>)
    ensures
        reads_as(r, current_of(state@)),
{
    let line = last_line(state);
    parse_timer_line(line.as_str())
}

} // verus!
