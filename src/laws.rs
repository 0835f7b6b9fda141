//! Laws of the parser, stated over the spec functions that the parsers'
//! contracts use.
use vstd::prelude::*;

use crate::calendar::is_calendar_date;
use crate::command::{Date, Projection};
use crate::error::ErrorKind;
use crate::fields::{
    date_parts, lemma_digits_below_pow10, lemma_pow10_add, message_stop, pow10, spec_coordinate,
    spec_date, spec_message, spec_projection, unescape, utm_lower, utm_upper,
};
use crate::lexer::{
    digit_value, digits_end, digits_value, keyword_at, lemma_digits_end_bounds,
    lemma_space_end_bounds, space_end,
};
use crate::step::Step;

verus! {

/// Where the digits of a coordinate field begin: after the whitespace and
/// the unit letter, if there is one.
pub open spec fn coordinate_digits_start(s: Seq<char>, p: int, lower: char, upper: char) -> int {
    let t = space_end(s, p);
    if t < s.len() && (s[t] == lower || s[t] == upper) {
        t + 1
    } else {
        t
    }
}

/// A coordinate written with exactly the number of digits of its axis
/// (seven for northings, six for eastings) is taken unchanged, with or
/// without its unit letter and whatever decimals follow it.
pub proof fn law_full_width_coordinate_unchanged(
    s: Seq<char>,
    p: int,
    lower: char,
    upper: char,
    width: nat,
)
    requires
        0 <= p <= s.len() <= usize::MAX,
        3 <= width <= 7,
        space_end(s, p) > p,
        digits_end(s, coordinate_digits_start(s, p, lower, upper))
            == coordinate_digits_start(s, p, lower, upper) + width,
    ensures
        ({
            let d = coordinate_digits_start(s, p, lower, upper);
            spec_coordinate(s, p, lower, upper, width) matches Step::Done(v, _) && v as nat
                == digits_value(s.subrange(d, d + width))
        }),
{
    let d = coordinate_digits_start(s, p, lower, upper);
    lemma_space_end_bounds(s, p);
    lemma_digits_end_bounds(s, d);
    lemma_digits_below_pow10(s.subrange(d, d + width));
    reveal_with_fuel(pow10, 8);
    assert(pow10(width) <= 10000000);
}

/// A coordinate of `k` digits, with `2 < k < width`, after its unit letter
/// and without a separator is scaled to full width: its value times ten to
/// the power `width - k`.
pub proof fn law_abbreviated_coordinate_scaled(
    s: Seq<char>,
    p: int,
    lower: char,
    upper: char,
    width: nat,
    k: nat,
)
    requires
        0 <= p <= s.len() <= usize::MAX,
        3 <= width <= 7,
        2 < k < width,
        space_end(s, p) > p,
        space_end(s, p) < s.len(),
        s[space_end(s, p)] == lower || s[space_end(s, p)] == upper,
        digits_end(s, space_end(s, p) + 1) == space_end(s, p) + 1 + k,
        !(space_end(s, p) + 1 + k < s.len() && (s[space_end(s, p) + 1 + k] == ','
            || s[space_end(s, p) + 1 + k] == '.')),
    ensures
        ({
            let d = space_end(s, p) + 1;
            spec_coordinate(s, p, lower, upper, width) matches Step::Done(v, _) && v as nat
                == digits_value(s.subrange(d, d + k)) * pow10((width - k) as nat)
        }),
{
    let d = space_end(s, p) + 1;
    lemma_space_end_bounds(s, p);
    lemma_digits_end_bounds(s, d);
    let v = digits_value(s.subrange(d, d + k));
    lemma_digits_below_pow10(s.subrange(d, d + k));
    lemma_pow10_add(k, (width - k) as nat);
    reveal_with_fuel(pow10, 8);
    assert(pow10(width) <= 10000000);
    let a = pow10(k);
    let f = pow10((width - k) as nat);
    assert(v * f < a * f) by (nonlinear_arith)
        requires v < a, f > 0;
    assert((k + (width - k) as nat) as nat == width);
}

/// Where the two digits of a projection field begin: after the whitespace
/// and an optional `UTM`.
pub open spec fn projection_digits_start(s: Seq<char>, p: int) -> int {
    let t = space_end(s, p);
    if keyword_at(s, t, utm_lower(), utm_upper()) {
        t + 3
    } else {
        t
    }
}

/// The four codes `32` to `35` are accepted, each as the zone whose
/// identifier is 25800 plus the code; every other two-digit code is refused
/// as a fatal `ParseProjection`.
pub proof fn law_projection_codes(s: Seq<char>, p: int)
    requires
        0 <= p <= s.len() <= usize::MAX,
        space_end(s, p) > p,
        digits_end(s, projection_digits_start(s, p)) == projection_digits_start(s, p) + 2,
    ensures
        ({
            let d = projection_digits_start(s, p);
            let code = 10 * digit_value(s[d]) + digit_value(s[d + 1]);
            let supported = 32 <= code <= 35;
            match spec_projection(s, p) {
                Step::Done(z, _) => supported && z.spec_srid() == 25800 + code,
                Step::Hard(e) => !supported && e.error == ErrorKind::ParseProjection,
                Step::Soft => false,
            }
        }),
{
    let d = projection_digits_start(s, p);
    lemma_space_end_bounds(s, p);
    lemma_digits_end_bounds(s, d);
    assert(crate::lexer::is_digit(s[d]) && crate::lexer::is_digit(s[d + 1]));
}

/// Different zones have different identifiers.
pub proof fn law_srid_distinct(a: Projection, b: Projection)
    ensures
        a.spec_srid() == b.spec_srid() ==> a == b,
{
}

/// A date that exists in the calendar is accepted when its year lies in
/// 1970 to 2029, and refused with `DateOutOfRange` otherwise.
pub proof fn law_date_range(s: Seq<char>, p: int)
    requires
        date_parts(s, p) is Ok,
        ({
            let (y, m, d, _) = date_parts(s, p)->Ok_0;
            is_calendar_date(y as int, m as int, d as int)
        }),
    ensures
        ({
            let (y, m, d, e) = date_parts(s, p)->Ok_0;
            if 1970 <= y < 2030 {
                spec_date(s, p) == Step::Done(Date { year: y as i32, month: m, day: d }, e as usize)
            } else {
                spec_date(s, p) matches Step::Hard(err) && err.error == ErrorKind::DateOutOfRange
            }
        }),
{
}

/// A message text written for the message syntax: each quote and each
/// backslash preceded by a backslash.
pub open spec fn escape(t: Seq<char>) -> Seq<char>
    decreases t.len(),
{
    if t.len() == 0 {
        t
    } else if t[0] == '"' || t[0] == '\\' {
        seq!['\\', t[0]] + escape(t.drop_first())
    } else {
        seq![t[0]] + escape(t.drop_first())
    }
}

/// Unescaping an escaped text without backslashes gives the text back.
pub proof fn law_escape_round_trip(t: Seq<char>)
    requires
        !t.contains('\\'),
    ensures
        unescape(escape(t)) == t,
    decreases t.len(),
{
    if t.len() > 0 {
        let rest = t.drop_first();
        assert(!rest.contains('\\')) by {
            if rest.contains('\\') {
                let i = choose|i: int| 0 <= i < rest.len() && rest[i] == '\\';
                assert(t[i + 1] == '\\');
            }
        }
        law_escape_round_trip(rest);
        let e = escape(t);
        if t[0] == '"' {
            assert(e.subrange(2, e.len() as int) =~= escape(rest));
            assert(seq!['"'] + rest =~= t);
        } else {
            assert(t[0] != '\\') by {
                assert(t[0] == t[0]);
                if t[0] == '\\' {
                    assert(t.contains('\\'));
                }
            }
            assert(e.drop_first() =~= escape(rest));
            assert(seq![t[0]] + rest =~= t);
        }
    }
}

pub proof fn lemma_escape_scans_to_quote(s: Seq<char>, i: int, t: Seq<char>)
    requires
        0 <= i,
        i + escape(t).len() < s.len(),
        s.subrange(i, i + escape(t).len()) == escape(t),
        s[i + escape(t).len()] == '"',
    ensures
        message_stop(s, i) == i + escape(t).len(),
    decreases t.len(),
{
    let e = escape(t);
    if t.len() > 0 {
        let rest = t.drop_first();
        let er = escape(rest);
        if t[0] == '"' || t[0] == '\\' {
            assert(s[i] == e[0] && s[i + 1] == e[1]);
            assert(s.subrange(i + 2, i + 2 + er.len()) =~= er) by {
                assert forall|j: int| 0 <= j < er.len() implies s[i + 2 + j] == er[j] by {
                    assert(s.subrange(i, i + e.len())[2 + j] == e[2 + j]);
                }
            }
            lemma_escape_scans_to_quote(s, i + 2, rest);
        } else {
            assert(s[i] == e[0]);
            assert(s.subrange(i + 1, i + 1 + er.len()) =~= er) by {
                assert forall|j: int| 0 <= j < er.len() implies s[i + 1 + j] == er[j] by {
                    assert(s.subrange(i, i + e.len())[1 + j] == e[1 + j]);
                }
            }
            lemma_escape_scans_to_quote(s, i + 1, rest);
        }
    }
}

/// A non-empty text without backslashes, escaped and put in quotes after a
/// space, is read back by the message parser as the text itself.
pub proof fn law_message_round_trip(t: Seq<char>)
    requires
        t.len() > 0,
        !t.contains('\\'),
    ensures
        ({
            let s = seq![' ', '"'] + escape(t) + seq!['"'];
            spec_message(s, 0) == Step::Done(t, s.len() as usize)
        }),
{
    let e = escape(t);
    let s = seq![' ', '"'] + e + seq!['"'];
    assert(space_end(s, 1) == 1);
    assert(space_end(s, 0) == 1);
    assert(s.subrange(2, 2 + e.len() as int) =~= e);
    lemma_escape_scans_to_quote(s, 2, t);
    law_escape_round_trip(t);
    assert(e.len() > 0);
}


} // verus!
