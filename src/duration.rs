//! Rendering of a signed duration, in whole seconds, as unit-labelled text.
use vstd::prelude::*;
use vstd::string::*;
use vstd::arithmetic::div_mod::lemma_fundamental_div_mod_converse;

verus! {

/// The character of a decimal digit.
pub open spec fn digit_char(d: nat) -> char {
    if d == 0 { '0' }
    else if d == 1 { '1' }
    else if d == 2 { '2' }
    else if d == 3 { '3' }
    else if d == 4 { '4' }
    else if d == 5 { '5' }
    else if d == 6 { '6' }
    else if d == 7 { '7' }
    else if d == 8 { '8' }
    else { '9' }
}

/// Decimal text of a natural number, without leading zeros.
pub open spec fn nat_text(n: nat) -> Seq<char>
    decreases n,
{
    if n < 10 {
        seq![digit_char(n)]
    } else {
        nat_text(n / 10) + seq![digit_char(n % 10)]
    }
}

/// Decimal text of an integer, with a leading `-` when it is negative.
pub open spec fn int_text(v: int) -> Seq<char> {
    if v < 0 {
        seq!['-'] + nat_text((-v) as nat)
    } else {
        nat_text(v as nat)
    }
}

/// Weeks, days, hours, minutes and seconds of a non-negative number of seconds,
/// each but the first reduced modulo the next larger unit.
pub open spec fn magnitude_units(a: nat) -> Seq<int> {
    seq![
        ((a / 86400) / 7) as int,
        ((a / 86400) % 7) as int,
        ((a / 3600) % 24) as int,
        ((a / 60) % 60) as int,
        (a % 60) as int,
    ]
}

/// The five components of a signed duration, as truncating division and
/// remainder give them: those of a negative duration are the negations of the
/// components of its magnitude.
pub open spec fn units(secs: int) -> Seq<int> {
    if secs >= 0 {
        magnitude_units(secs as nat)
    } else {
        magnitude_units((-secs) as nat).map_values(|v: int| -v)
    }
}

/// The plural label of the component at index `i`.
pub open spec fn unit_name(i: int) -> Seq<char> {
    if i == 0 { "weeks"@ }
    else if i == 1 { "days"@ }
    else if i == 2 { "hours"@ }
    else if i == 3 { "minutes"@ }
    else { "seconds"@ }
}

/// One emitted component: a space, the value, a space and the unit's label.
pub open spec fn piece(v: int, name: Seq<char>) -> Seq<char> {
    seq![' '] + int_text(v) + seq![' '] + name
}

/// The pieces of the components at indices `lo` up to `hi`, in order.
pub open spec fn pieces(vals: Seq<int>, lo: int, hi: int) -> Seq<char>
    decreases hi - lo,
{
    if hi <= lo {
        Seq::empty()
    } else {
        pieces(vals, lo, hi - 1) + piece(vals[hi - 1], unit_name(hi - 1))
    }
}

/// The index of the first non-zero component at or after `i`, or 5 if none.
pub open spec fn first_nonzero_from(vals: Seq<int>, i: int) -> int
    decreases 5 - i,
{
    if i >= 5 {
        5
    } else if vals[i] != 0 {
        i
    } else {
        first_nonzero_from(vals, i + 1)
    }
}

/// The text of a duration: every component from the first non-zero one on.
pub open spec fn duration_text(secs: int) -> Seq<char> {
    let vals = units(secs);
    pieces(vals, first_nonzero_from(vals, 0), 5)
}

fn digit_str(d: u128) -> (r: &'static str)
    requires
        d < 10,
    ensures
        r@ == seq![digit_char(d as nat)],
{
    proof {
        reveal_strlit("0");
        reveal_strlit("1");
        reveal_strlit("2");
        reveal_strlit("3");
        reveal_strlit("4");
        reveal_strlit("5");
        reveal_strlit("6");
        reveal_strlit("7");
        reveal_strlit("8");
        reveal_strlit("9");
    }
    if d == 0 { "0" }
    else if d == 1 { "1" }
    else if d == 2 { "2" }
    else if d == 3 { "3" }
    else if d == 4 { "4" }
    else if d == 5 { "5" }
    else if d == 6 { "6" }
    else if d == 7 { "7" }
    else if d == 8 { "8" }
    else { "9" }
}

/// Decimal text of `n`.
pub fn nat_to_text(n: u128) -> (r: String)
    ensures
        r@ == nat_text(n as nat),
    decreases n,
{
    if n < 10 {
        String::from_str(digit_str(n))
    } else {
        let mut s = nat_to_text(n / 10);
        s.append(digit_str(n % 10));
        s
    }
}

/// Decimal text of the component whose magnitude is `m`, negated when
/// `negative` holds.
fn component_text(m: u128, negative: bool) -> (r: String)
    ensures
        r@ == int_text(if negative { -(m as int) } else { m as int }),
{
    let digits = nat_to_text(m);
    if negative && m != 0 {
        proof {
            reveal_strlit("-");
        }
        let s = String::from_str("-");
        s.concat(digits.as_str())
    } else {
        digits
    }
}

fn unit_label(i: usize) -> (r: &'static str)
    ensures
        r@ == unit_name(i as int),
{
    if i == 0 { "weeks" }
    else if i == 1 { "days" }
    else if i == 2 { "hours" }
    else if i == 3 { "minutes" }
    else { "seconds" }
}

proof fn lemma_first_nonzero(vals: Seq<int>, i: int)
    requires
        0 <= i <= 5,
        vals.len() == 5,
    ensures
        i <= first_nonzero_from(vals, i) <= 5,
        forall|j: int| i <= j < first_nonzero_from(vals, i) ==> vals[j] == 0,
        first_nonzero_from(vals, i) < 5 ==> vals[first_nonzero_from(vals, i)] != 0,
    decreases 5 - i,
{
    if i < 5 && vals[i] == 0 {
        lemma_first_nonzero(vals, i + 1);
    }
}

/// A duration made of `w` weeks, `d` days, `h` hours, `m` minutes and `s`
/// seconds, each below the next larger unit, has exactly those components; its
/// text holds the pieces of every component from the first non-zero one on,
/// and only components that are zero come before it.
pub proof fn lemma_whole_units_text(w: nat, d: nat, h: nat, m: nat, s: nat)
    requires
        d < 7,
        h < 24,
        m < 60,
        s < 60,
    ensures
        ({
            let secs: int = (w * 604800 + d * 86400 + h * 3600 + m * 60 + s) as int;
            let vals = seq![w as int, d as int, h as int, m as int, s as int];
            let k = first_nonzero_from(vals, 0);
            &&& units(secs) == vals
            &&& 0 <= k <= 5
            &&& forall|j: int| 0 <= j < k ==> vals[j] == 0
            &&& k < 5 ==> vals[k] != 0
            &&& duration_text(secs) == pieces(vals, k, 5)
        }),
{
    let a = w * 604800 + d * 86400 + h * 3600 + m * 60 + s;
    let days = 7 * w + d;
    let hours = 24 * days + h;
    let minutes = 60 * hours + m;
    assert(a == days * 86400 + (h * 3600 + m * 60 + s)) by (nonlinear_arith)
        requires a == w * 604800 + d * 86400 + h * 3600 + m * 60 + s, days == 7 * w + d;
    assert(h * 3600 + m * 60 + s < 86400) by (nonlinear_arith)
        requires h < 24, m < 60, s < 60;
    lemma_fundamental_div_mod_converse(a as int, 86400, days as int, (h * 3600 + m * 60 + s) as int);
    lemma_fundamental_div_mod_converse(days as int, 7, w as int, d as int);
    assert(a == hours * 3600 + (m * 60 + s)) by (nonlinear_arith)
        requires a == days * 86400 + (h * 3600 + m * 60 + s), hours == 24 * days + h;
    assert(m * 60 + s < 3600) by (nonlinear_arith)
        requires m < 60, s < 60;
    lemma_fundamental_div_mod_converse(a as int, 3600, hours as int, (m * 60 + s) as int);
    lemma_fundamental_div_mod_converse(hours as int, 24, days as int, h as int);
    assert(a == minutes * 60 + s) by (nonlinear_arith)
        requires a == hours * 3600 + (m * 60 + s), minutes == 60 * hours + m;
    lemma_fundamental_div_mod_converse(a as int, 60, minutes as int, s as int);
    lemma_fundamental_div_mod_converse(minutes as int, 60, hours as int, m as int);
    let vals = seq![w as int, d as int, h as int, m as int, s as int];
    assert(units(a as int) =~= vals);
    lemma_first_nonzero(vals, 0);
}

/// Renders a signed duration of `secs` seconds: from the first non-zero
/// component on, each component as a space, its value, a space and its plural
/// unit; the empty string when every component is zero.
pub fn format_duration(secs: i128) -> (r: String)
    ensures
        r@ == duration_text(secs as int),
{
    let negative = secs < 0;
    let a: u128 = if negative { ((-(secs + 1)) as u128) + 1 } else { secs as u128 };
    let days = a / 86400;
    let mags: Vec<u128> = vec![days / 7, days % 7, (a / 3600) % 24, (a / 60) % 60, a % 60];
    let ghost vals = units(secs as int);
    proof {
        assert(a as int == if secs < 0 { -(secs as int) } else { secs as int });
        lemma_first_nonzero(vals, 0);
    }
    let ghost lead = first_nonzero_from(vals, 0);
    let mut out = String::new();
    let mut found = false;
    let mut i: usize = 0;
    while i < 5
        invariant
            0 <= i <= 5,
            mags@.len() == 5,
            vals.len() == 5,
            forall|j: int| 0 <= j < 5 ==> vals[j] == if negative { -(mags@[j] as int) } else { mags@[j] as int },
            0 <= lead <= 5,
            forall|j: int| 0 <= j < lead ==> vals[j] == 0,
            lead < 5 ==> vals[lead] != 0,
            found == (lead < i),
            found ==> out@ == pieces(vals, lead, i as int),
            !found ==> out@ == Seq::<char>::empty(),
        decreases 5 - i,
    {
        let m = mags[i];
        if found || m != 0 {
            let text = component_text(m, negative);
            if !found {
                assert(vals[i as int] == if negative { -(m as int) } else { m as int });
                assert(vals[i as int] != 0);
                assert(lead == i);
                assert(pieces(vals, lead, i as int) == Seq::<char>::empty());
            }
            found = true;
            out.append(" ");
            out.append(text.as_str());
            out.append(" ");
            out.append(unit_label(i));
            proof {
                reveal_strlit(" ");
                assert(out@ == pieces(vals, lead, i as int) + piece(vals[i as int], unit_name(i as int)));
            }
        }
        i = i + 1;
    }
    out
}

} // verus!
