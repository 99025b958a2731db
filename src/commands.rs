//! The `start` and `stop` commands, as decisions on the text of the state
//! file, and what each does to that text.
use vstd::prelude::*;
use vstd::string::*;
use crate::duration::{duration_text, format_duration, int_text, nat_text, digit_char, piece,
    pieces, unit_name, units, first_nonzero_from};
use crate::stamp::{Stamp, rfc2822_parse};
use crate::store::{last_line_of, without_last_line, ends_cleanly, is_line, line_count,
    lemma_replace_last_line,
    lemma_append_line, lemma_without_last_ends_cleanly, lemma_last_break_end_bounds, body,
    last_line_start};
use crate::timer::{TimerError, get_current_timer, current_of,
    marker, space_from, lemma_space_from, trim, trim_front, trim_back, is_white};

verus! {

/// What `start` asks of the state file.
#[derive(Debug)]
pub enum StartAction {
    /// A timer of this name runs already: leave the file as it is.
    AlreadyRunning(String),
    /// Append this line.
    Append(String),
}

/// What `stop` asks of the state file.
#[derive(Debug)]
pub enum StopAction {
    /// No timer runs: leave the file as it is.
    NoTimer,
    /// Delete the last line, then append this one.
    Replace(String),
}

/// No character of `s` is a line break.
pub open spec fn no_break(s: Seq<char>) -> bool {
    forall|i: int| 0 <= i < s.len() ==> s[i] != '\n'
}

/// No character of `s` is a space or a line break.
pub open spec fn is_word(s: Seq<char>) -> bool {
    forall|i: int| 0 <= i < s.len() ==> s[i] != '\n' && s[i] != ' '
}

/// No white space at either end of `s`.
pub open spec fn is_trimmed(s: Seq<char>) -> bool {
    s.len() == 0 || (!is_white(s[0]) && !is_white(s.last()))
}

/// Whether the state says that a timer runs.
pub open spec fn running(v: Result<Option<(Seq<char>, Stamp)>, TimerError>) -> bool {
    v is Ok && v->Ok_0 is Some
}

/// The line that marks a timer `name` started at the instant written `text`.
pub open spec fn current_line(name: Seq<char>, text: Seq<char>) -> Seq<char> {
    marker() + seq![' '] + name + seq![' '] + text + seq!['\n']
}

/// The line that records a timer `name` that ran for `secs` seconds.
pub open spec fn summary_line(name: Seq<char>, secs: int) -> Seq<char> {
    name + seq![':', ' '] + duration_text(secs) + seq!['\n']
}

/// Whole seconds from `start` to `now_secs` seconds and `now_nanos`
/// nanoseconds, truncated toward zero.
pub open spec fn elapsed(start: int, now_secs: int, now_nanos: int) -> int {
    let d = now_secs - start;
    if d < 0 && now_nanos > 0 { d + 1 } else { d }
}

/// The state file's text after a `start` action.
pub open spec fn after_start(state: Seq<char>, a: StartAction) -> Seq<char> {
    match a {
        StartAction::AlreadyRunning(_) => state,
        StartAction::Append(l) => state + l@,
    }
}

/// The state file's text after a `stop` action.
pub open spec fn after_stop(state: Seq<char>, a: StopAction) -> Seq<char> {
    match a {
        StopAction::NoTimer => state,
        StopAction::Replace(l) => without_last_line(state) + l@,
    }
}

/// Decides `start` of a timer `name` at the instant written `now_text`, given
/// the state file's text: report the timer that runs already, or append the
/// line that marks the new one.
pub fn start(state: &str, name: &str, now_text: &str) -> (r: Result<StartAction, TimerError>)
    ensures
        current_of(state@) is Err ==> r == Err::<StartAction, TimerError>(current_of(state@)->Err_0),
        running(current_of(state@)) ==> {
            &&& r is Ok && r->Ok_0 is AlreadyRunning
            &&& r->Ok_0->AlreadyRunning_0@ == current_of(state@)->Ok_0->Some_0.0
            &&& after_start(state@, r->Ok_0) == state@
        },
        current_of(state@) == Ok::<Option<(Seq<char>, Stamp)>, TimerError>(None) ==> {
            &&& r is Ok && r->Ok_0 is Append
            &&& r->Ok_0->Append_0@ == current_line(name@, now_text@)
            &&& after_start(state@, r->Ok_0) == state@ + current_line(name@, now_text@)
            &&& (ends_cleanly(state@) && no_break(name@) && no_break(now_text@)) ==> {
                &&& last_line_of(after_start(state@, r->Ok_0)) == current_line(name@, now_text@)
                &&& without_last_line(after_start(state@, r->Ok_0)) == state@
            }
        },
{
    match get_current_timer(state) {
        Err(e) => Err(e),
        Ok(Some(t)) => Ok(StartAction::AlreadyRunning(t.name)),
        Ok(None) => {
            proof {
                reveal_strlit("Current: ");
                reveal_strlit("Current:");
                reveal_strlit(" ");
                reveal_strlit("\n");
            }
            let mut line = String::from_str("Current: ");
            line.append(name);
            line.append(" ");
            line.append(now_text);
            line.append("\n");
            assert(line@ =~= current_line(name@, now_text@));
            proof {
                if ends_cleanly(state@) && no_break(name@) && no_break(now_text@) {
                    lemma_current_line_is_line(name@, now_text@);
                    lemma_append_line(state@, current_line(name@, now_text@));
                }
            }
            Ok(StartAction::Append(line))
        },
    }
}

proof fn lemma_concat_no_break(a: Seq<char>, b: Seq<char>)
    requires
        no_break(a),
        no_break(b),
    ensures
        no_break(a + b),
{
    assert forall|i: int| 0 <= i < (a + b).len() implies (a + b)[i] != '\n' by {
        if i >= a.len() {
            assert((a + b)[i] == b[i - a.len()]);
        }
    }
}

proof fn lemma_nat_text_no_break(n: nat)
    ensures
        no_break(nat_text(n)),
    decreases n,
{
    if n >= 10 {
        lemma_nat_text_no_break(n / 10);
        lemma_concat_no_break(nat_text(n / 10), seq![digit_char(n % 10)]);
    }
}

proof fn lemma_pieces_no_break(vals: Seq<int>, lo: int, hi: int)
    ensures
        no_break(pieces(vals, lo, hi)),
    decreases hi - lo,
{
    if hi > lo {
        lemma_pieces_no_break(vals, lo, hi - 1);
        let v = vals[hi - 1];
        if v < 0 {
            lemma_nat_text_no_break((-v) as nat);
            lemma_concat_no_break(seq!['-'], nat_text((-v) as nat));
        } else {
            lemma_nat_text_no_break(v as nat);
        }
        reveal_strlit("weeks");
        reveal_strlit("days");
        reveal_strlit("hours");
        reveal_strlit("minutes");
        reveal_strlit("seconds");
        let name = unit_name(hi - 1);
        assert(no_break(name));
        lemma_concat_no_break(seq![' '], int_text(v));
        lemma_concat_no_break(seq![' '] + int_text(v), seq![' ']);
        lemma_concat_no_break(seq![' '] + int_text(v) + seq![' '], name);
        lemma_concat_no_break(pieces(vals, lo, hi - 1), piece(v, name));
    }
}

/// The name of a running timer holds no line break.
proof fn lemma_running_name_no_break(state: Seq<char>)
    requires
        running(current_of(state)),
    ensures
        no_break(current_of(state)->Ok_0->Some_0.0),
{
    let s = last_line_of(state);
    let start = last_line_start(state);
    lemma_last_break_end_bounds(body(state));
    let p1 = space_from(s, 0);
    lemma_space_from(s, 0);
    let p2 = space_from(s, p1 + 1);
    lemma_space_from(s, p1 + 1);
    assert(p2 < s.len());
    assert forall|i: int| 0 <= i < s.len() - 1 implies s[i] != '\n' by {
        assert(s[i] == body(state)[start + i]);
    }
    let name = s.subrange(p1 + 1, p2);
    assert forall|i: int| 0 <= i < name.len() implies name[i] != '\n' by {
        assert(name[i] == s[p1 + 1 + i]);
    }
}

/// A trimmed text followed by a line break trims back to itself.
proof fn lemma_trim_line_end(text: Seq<char>)
    requires
        is_trimmed(text),
    ensures
        trim(text + seq!['\n']) == text,
{
    let s = text + seq!['\n'];
    assert(is_white('\n'));
    if text.len() == 0 {
        assert(s.drop_first() =~= Seq::<char>::empty());
        assert(trim_front(s) == trim_front(Seq::<char>::empty()));
    } else {
        assert(trim_front(s) == s);
        assert(s.drop_last() =~= text);
        assert(trim_back(s) == trim_back(text));
    }
}

/// The line is a single line when neither the name nor the instant's text
/// holds a line break.
proof fn lemma_current_line_is_line(name: Seq<char>, text: Seq<char>)
    requires
        no_break(name),
        no_break(text),
    ensures
        is_line(current_line(name, text)),
{
    reveal_strlit("Current:");
    let l = current_line(name, text);
    assert forall|i: int| 0 <= i < l.len() - 1 implies l[i] != '\n' by {
        if i >= 9 && i < 9 + name.len() {
            assert(l[i] == name[i - 9]);
        } else if i >= 10 + name.len() {
            assert(l[i] == text[i - 10 - name.len()]);
        }
    }
}

/// Round trip: once `start` has appended its line to a state file that ends
/// cleanly, the current timer read back from the file has the same name and
/// the instant that the RFC 2822 reader gives for the same text.
pub proof fn lemma_start_line_reads_back(state: Seq<char>, name: Seq<char>, text: Seq<char>)
    requires
        ends_cleanly(state),
        is_word(name),
        no_break(text),
        is_trimmed(text),
    ensures
        current_of(state + current_line(name, text)) == match rfc2822_parse(text) {
            None => Err(TimerError::BadStart),
            Some(p) => Ok(Some((name, Stamp { secs: p.0 as i64, offset: p.1 as i32 }))),
        },
{
    reveal_strlit("Current:");
    let l = current_line(name, text);
    assert(no_break(name));
    lemma_current_line_is_line(name, text);
    lemma_append_line(state, l);
    lemma_space_from(l, 0);
    let p1 = space_from(l, 0);
    assert(l[8] == ' ');
    if p1 < 8 {
        assert(l[p1] == marker()[p1]);
    }
    assert(p1 == 8);
    assert(l.subrange(0, 8) =~= marker());
    lemma_space_from(l, 9);
    let p2 = space_from(l, 9);
    let e: int = 9 + name.len() as int;
    assert(l[e] == ' ');
    if p2 < e {
        assert(l[p2] == name[p2 - 9]);
    }
    assert(p2 == e);
    assert(l.subrange(9, e) =~= name);
    assert(l.subrange(e + 1, l.len() as int) =~= text + seq!['\n']);
    lemma_trim_line_end(text);
}

/// Decides `stop` at `now_secs` seconds and `now_nanos` nanoseconds after the
/// Unix epoch, given the state file's text: nothing when no timer runs, and
/// otherwise replace the timer's line by one that records how long it ran.
pub fn stop(state: &str, now_secs: i64, now_nanos: u32) -> (r: Result<StopAction, TimerError>)
    requires
        now_nanos < 1_000_000_000,
    ensures
        current_of(state@) is Err ==> r == Err::<StopAction, TimerError>(current_of(state@)->Err_0),
        current_of(state@) == Ok::<Option<(Seq<char>, Stamp)>, TimerError>(None) ==> {
            &&& r == Ok::<StopAction, TimerError>(StopAction::NoTimer)
            &&& after_stop(state@, r->Ok_0) == state@
        },
        running(current_of(state@)) ==> {
            let t = current_of(state@)->Ok_0->Some_0;
            let line = summary_line(t.0, elapsed(t.1.secs as int, now_secs as int, now_nanos as int));
            &&& r is Ok && r->Ok_0 is Replace
            &&& r->Ok_0->Replace_0@ == line
            &&& after_stop(state@, r->Ok_0) == without_last_line(state@) + line
            &&& last_line_of(after_stop(state@, r->Ok_0)) == line
            &&& without_last_line(after_stop(state@, r->Ok_0)) == without_last_line(state@)
            &&& line_count(after_stop(state@, r->Ok_0)) == line_count(state@)
        },
{
    match get_current_timer(state) {
        Err(e) => Err(e),
        Ok(None) => Ok(StopAction::NoTimer),
        Ok(Some(t)) => {
            let d: i128 = now_secs as i128 - t.start.secs as i128;
            let secs: i128 = if d < 0 && now_nanos > 0 { d + 1 } else { d };
            let text = format_duration(secs);
            proof {
                reveal_strlit(": ");
                reveal_strlit("\n");
            }
            let mut line = t.name;
            line.append(": ");
            line.append(text.as_str());
            line.append("\n");
            proof {
                let l = line@;
                assert(l =~= summary_line(t.name@, secs as int));
                lemma_running_name_no_break(state@);
                lemma_pieces_no_break(units(secs as int), first_nonzero_from(units(secs as int), 0), 5);
                lemma_concat_no_break(t.name@, seq![':', ' ']);
                lemma_concat_no_break(t.name@ + seq![':', ' '], duration_text(secs as int));
                assert(l.drop_last() =~= t.name@ + seq![':', ' '] + duration_text(secs as int));
                assert forall|i: int| 0 <= i < l.len() - 1 implies l[i] != '\n' by {
                    assert(l[i] == l.drop_last()[i]);
                }
                lemma_without_last_ends_cleanly(state@);
                lemma_append_line(without_last_line(state@), l);
                reveal_strlit("Current:");
                assert(marker().len() == 8);
                assert(state@.len() > 0);
                lemma_replace_last_line(state@, l);
            }
            Ok(StopAction::Replace(line))
        },
    }
}

} // verus!
