//! Laws on the order of the fields of a point: the parsed result does not
//! depend on it.
use vstd::prelude::*;

use crate::calendar::{is_calendar_date, is_clock_time};
use crate::command::{Action, Date, PointView, Position, Projection, Time};
use crate::fields::{
    TimeGroup, food_lower, food_upper, hut_lower, hut_upper, lemma_digits_below_pow10, pow10, spec_action,
    spec_coordinate, spec_date, spec_eastings, spec_message, spec_northings, spec_projection,
    spec_time, spec_time_group, tent_lower, tent_upper, unescape, utm_lower, utm_upper, zone_of,
};
use crate::laws::{escape, lemma_escape_scans_to_quote};
use crate::lexer::{digits_end, digits_value, is_digit, is_space, keyword_at, space_end};
use crate::parser::{point_rounds, position_rounds, spec_point, spec_position};
use crate::step::Step;

verus! {

proof fn lemma_digit_run(s: Seq<char>, a: int, b: int)
    requires
        0 <= a <= b <= s.len(),
        forall|j: int| a <= j < b ==> is_digit(#[trigger] s[j]),
        b == s.len() || is_space(s[b]),
    ensures
        digits_end(s, a) == b,
    decreases b - a,
{
    if a < b {
        lemma_digit_run(s, a + 1, b);
    }
}

/// At `i` stands a space and a two-digit zone code, then a space or the end.
pub open spec fn zone_token_at(s: Seq<char>, i: int) -> bool {
    &&& 0 <= i
    &&& i + 3 <= s.len()
    &&& s[i] == ' '
    &&& is_digit(s[i + 1])
    &&& is_digit(s[i + 2])
    &&& zone_of(s[i + 1], s[i + 2]) is Some
    &&& (i + 3 == s.len() || is_space(s[i + 3]))
}

/// At `i` stands a space, the unit letter and `width` digits, then a space or
/// the end.
pub open spec fn axis_token_at(s: Seq<char>, i: int, lower: char, upper: char, width: int) -> bool {
    &&& 0 <= i
    &&& i + 2 + width <= s.len()
    &&& s[i] == ' '
    &&& (s[i + 1] == lower || s[i + 1] == upper)
    &&& forall|j: int| i + 2 <= j < i + 2 + width ==> is_digit(#[trigger] s[j])
    &&& (i + 2 + width == s.len() || is_space(s[i + 2 + width]))
}

proof fn lemma_zone_token(s: Seq<char>, i: int)
    requires
        zone_token_at(s, i),
        s.len() <= usize::MAX,
    ensures
        spec_projection(s, i) == Step::Done(zone_of(s[i + 1], s[i + 2])->0, (i + 3) as usize),
        spec_northings(s, i) is Soft,
        spec_eastings(s, i) is Soft,
{
    assert(space_end(s, i + 1) == i + 1);
    assert(space_end(s, i) == i + 1);
    assert(!keyword_at(s, i + 1, utm_lower(), utm_upper())) by {
        assert(s[i + 1 + 0] != utm_lower()[0] && s[i + 1 + 0] != utm_upper()[0]);
    }
    lemma_digit_run(s, i + 1, i + 3);
    lemma_digit_run(s, i + 3, i + 3);
    let d = s.subrange(i + 1, i + 3);
    assert forall|j: int| 0 <= j < d.len() implies is_digit(#[trigger] d[j]) by {
        assert(d[j] == s[i + 1 + j]);
    }
    lemma_digits_below_pow10(d);
    reveal_with_fuel(pow10, 3);
}

proof fn lemma_axis_token(s: Seq<char>, i: int, lower: char, upper: char, width: int)
    requires
        axis_token_at(s, i, lower, upper, width),
        s.len() <= usize::MAX,
        3 <= width <= 7,
        (lower == 'n' && upper == 'N') || (lower == 'e' && upper == 'E'),
    ensures
        spec_projection(s, i) is Soft,
        spec_coordinate(s, i, lower, upper, width as nat) == Step::Done(
            digits_value(s.subrange(i + 2, i + 2 + width)) as u32,
            (i + 2 + width) as usize,
        ),
        forall|l: char, u: char, w: nat|
            l != s[i + 1] && u != s[i + 1] ==> #[trigger] spec_coordinate(s, i, l, u, w) is Soft,
{
    assert(space_end(s, i + 1) == i + 1);
    assert(space_end(s, i) == i + 1);
    assert(!keyword_at(s, i + 1, utm_lower(), utm_upper())) by {
        assert(s[i + 1 + 0] != utm_lower()[0] && s[i + 1 + 0] != utm_upper()[0]);
    }
    lemma_digit_run(s, i + 2, i + 2 + width);
    lemma_digit_run(s, i + 2 + width, i + 2 + width);
    let d = s.subrange(i + 2, i + 2 + width);
    assert forall|j: int| 0 <= j < d.len() implies is_digit(#[trigger] d[j]) by {
        assert(d[j] == s[i + 2 + j]);
    }
    lemma_digits_below_pow10(d);
    reveal_with_fuel(pow10, 8);
    assert(pow10(width as nat) <= 10000000);
}


proof fn lemma_zone_step(
    s: Seq<char>,
    i: int,
    north: Option<u32>,
    east: Option<u32>,
)
    requires
        zone_token_at(s, i),
        s.len() <= usize::MAX,
    ensures
        position_rounds(s, i, None, north, east) == position_rounds(
            s,
            i + 3,
            Some(zone_of(s[i + 1], s[i + 2])->0),
            north,
            east,
        ),
{
    lemma_zone_token(s, i);
}

proof fn lemma_north_step(s: Seq<char>, i: int, proj: Option<Projection>, east: Option<u32>)
    requires
        axis_token_at(s, i, 'n', 'N', 7),
        s.len() <= usize::MAX,
    ensures
        position_rounds(s, i, proj, None, east) == position_rounds(
            s,
            i + 9,
            proj,
            Some(digits_value(s.subrange(i + 2, i + 9)) as u32),
            east,
        ),
{
    lemma_axis_token(s, i, 'n', 'N', 7);
}

proof fn lemma_east_step(s: Seq<char>, i: int, proj: Option<Projection>, north: Option<u32>)
    requires
        axis_token_at(s, i, 'e', 'E', 6),
        s.len() <= usize::MAX,
    ensures
        position_rounds(s, i, proj, north, None) == position_rounds(
            s,
            i + 8,
            proj,
            north,
            Some(digits_value(s.subrange(i + 2, i + 8)) as u32),
        ),
{
    lemma_axis_token(s, i, 'e', 'E', 6);
    lemma_axis_token(s, i, 'e', 'E', 6);
    assert(spec_northings(s, i) is Soft);
}

/// A space and a two-digit code of a supported zone.
pub open spec fn is_zone_token(t: Seq<char>) -> bool {
    &&& t.len() == 3
    &&& t[0] == ' '
    &&& is_digit(t[1])
    &&& is_digit(t[2])
    &&& zone_of(t[1], t[2]) is Some
}

/// A space, the unit letter and `width` digits.
pub open spec fn is_axis_token(t: Seq<char>, lower: char, upper: char, width: int) -> bool {
    &&& t.len() == 2 + width
    &&& t[0] == ' '
    &&& (t[1] == lower || t[1] == upper)
    &&& forall|j: int| 2 <= j < 2 + width ==> is_digit(#[trigger] t[j])
}

/// Where the token `t` stands at `i` of `s`, followed by a space or the end.
pub open spec fn placed(s: Seq<char>, i: int, t: Seq<char>) -> bool {
    &&& 0 <= i
    &&& i + t.len() <= s.len()
    &&& s.subrange(i, i + t.len()) == t
    &&& (i + t.len() == s.len() || is_space(s[i + t.len()]))
}

proof fn lemma_placed_zone(s: Seq<char>, i: int, t: Seq<char>)
    requires
        placed(s, i, t),
        is_zone_token(t),
    ensures
        zone_token_at(s, i),
        s[i + 1] == t[1] && s[i + 2] == t[2],
{
    assert(s[i + 0] == t[0] && s[i + 1] == t[1] && s[i + 2] == t[2]) by {
        assert(s.subrange(i, i + 3)[0] == t[0]);
        assert(s.subrange(i, i + 3)[1] == t[1]);
        assert(s.subrange(i, i + 3)[2] == t[2]);
    }
}

proof fn lemma_placed_axis(s: Seq<char>, i: int, t: Seq<char>, lower: char, upper: char, width: int)
    requires
        placed(s, i, t),
        is_axis_token(t, lower, upper, width),
        width >= 0,
    ensures
        axis_token_at(s, i, lower, upper, width),
        s.subrange(i + 2, i + 2 + width) == t.subrange(2, 2 + width),
{
    let w = s.subrange(i, i + t.len());
    assert(s[i] == t[0] && s[i + 1] == t[1]) by {
        assert(w[0] == t[0]);
        assert(w[1] == t[1]);
    }
    assert forall|j: int| i + 2 <= j < i + 2 + width implies is_digit(#[trigger] s[j]) by {
        assert(w[j - i] == t[j - i]);
    }
    assert(s.subrange(i + 2, i + 2 + width) =~= t.subrange(2, 2 + width)) by {
        assert forall|j: int| 0 <= j < width implies #[trigger] s.subrange(i + 2, i + 2 + width)[j]
            == t.subrange(2, 2 + width)[j] by {
            assert(w[j + 2] == t[j + 2]);
        }
    }
}

/// The position that a zone token, a northing token and an easting token
/// stand for.
pub open spec fn position_of(zone: Seq<char>, north: Seq<char>, east: Seq<char>) -> Position {
    Position {
        projection: zone_of(zone[1], zone[2])->0,
        eastings: digits_value(east.subrange(2, 8)) as u32,
        northings: digits_value(north.subrange(2, 9)) as u32,
    }
}

proof fn lemma_three_placed(s: Seq<char>, a: Seq<char>, b: Seq<char>, c: Seq<char>, rest: Seq<char>)
    requires
        s == a + b + c + rest,
        a.len() > 0 && b.len() > 0 && c.len() > 0,
        a[0] == ' ' && b[0] == ' ' && c[0] == ' ',
        rest.len() == 0 || is_space(rest[0]),
    ensures
        placed(s, 0, a),
        placed(s, a.len() as int, b),
        placed(s, (a.len() + b.len()) as int, c),
{
    let ib = a.len() as int;
    let ic = (a.len() + b.len()) as int;
    let end = (a.len() + b.len() + c.len()) as int;
    assert(s.subrange(0, ib) =~= a);
    assert(s.subrange(ib, ic) =~= b);
    assert(s.subrange(ic, end) =~= c);
    assert(s[ib] == b[0]);
    assert(s[ic] == c[0]);
    if end < s.len() {
        assert(s[end] == rest[0]);
    }
}

/// The requirements on the tokens of a position law.
pub open spec fn position_tokens(zone: Seq<char>, north: Seq<char>, east: Seq<char>, rest: Seq<char>) -> bool {
    &&& is_zone_token(zone)
    &&& is_axis_token(north, 'n', 'N', 7)
    &&& is_axis_token(east, 'e', 'E', 6)
    &&& (rest.len() == 0 || is_space(rest[0]))
    &&& 20 + rest.len() <= usize::MAX
}

proof fn lemma_zone_north_east(zone: Seq<char>, north: Seq<char>, east: Seq<char>, rest: Seq<char>)
    requires
        position_tokens(zone, north, east, rest),
    ensures
        spec_position(zone + north + east + rest, 0) == Step::Done(position_of(zone, north, east), 20usize),
{
    let s = zone + north + east + rest;
    lemma_three_placed(s, zone, north, east, rest);
    lemma_placed_zone(s, 0, zone);
    lemma_placed_axis(s, 3, north, 'n', 'N', 7);
    lemma_placed_axis(s, 12, east, 'e', 'E', 6);
    let z = zone_of(zone[1], zone[2])->0;
    let nv = digits_value(north.subrange(2, 9)) as u32;
    lemma_zone_step(s, 0, None, None);
    lemma_north_step(s, 3, Some(z), None);
    lemma_east_step(s, 12, Some(z), Some(nv));
}

proof fn lemma_zone_east_north(zone: Seq<char>, north: Seq<char>, east: Seq<char>, rest: Seq<char>)
    requires
        position_tokens(zone, north, east, rest),
    ensures
        spec_position(zone + east + north + rest, 0) == Step::Done(position_of(zone, north, east), 20usize),
{
    let s = zone + east + north + rest;
    lemma_three_placed(s, zone, east, north, rest);
    lemma_placed_zone(s, 0, zone);
    lemma_placed_axis(s, 3, east, 'e', 'E', 6);
    lemma_placed_axis(s, 11, north, 'n', 'N', 7);
    let z = zone_of(zone[1], zone[2])->0;
    let ev = digits_value(east.subrange(2, 8)) as u32;
    lemma_zone_step(s, 0, None, None);
    lemma_east_step(s, 3, Some(z), None);
    lemma_north_step(s, 11, Some(z), Some(ev));
}

proof fn lemma_north_zone_east(zone: Seq<char>, north: Seq<char>, east: Seq<char>, rest: Seq<char>)
    requires
        position_tokens(zone, north, east, rest),
    ensures
        spec_position(north + zone + east + rest, 0) == Step::Done(position_of(zone, north, east), 20usize),
{
    let s = north + zone + east + rest;
    lemma_three_placed(s, north, zone, east, rest);
    lemma_placed_axis(s, 0, north, 'n', 'N', 7);
    lemma_placed_zone(s, 9, zone);
    lemma_placed_axis(s, 12, east, 'e', 'E', 6);
    let z = zone_of(zone[1], zone[2])->0;
    let nv = digits_value(north.subrange(2, 9)) as u32;
    lemma_north_step(s, 0, None, None);
    lemma_zone_step(s, 9, Some(nv), None);
    lemma_east_step(s, 12, Some(z), Some(nv));
}

proof fn lemma_north_east_zone(zone: Seq<char>, north: Seq<char>, east: Seq<char>, rest: Seq<char>)
    requires
        position_tokens(zone, north, east, rest),
    ensures
        spec_position(north + east + zone + rest, 0) == Step::Done(position_of(zone, north, east), 20usize),
{
    let s = north + east + zone + rest;
    lemma_three_placed(s, north, east, zone, rest);
    lemma_placed_axis(s, 0, north, 'n', 'N', 7);
    lemma_placed_axis(s, 9, east, 'e', 'E', 6);
    lemma_placed_zone(s, 17, zone);
    let nv = digits_value(north.subrange(2, 9)) as u32;
    let ev = digits_value(east.subrange(2, 8)) as u32;
    lemma_north_step(s, 0, None, None);
    lemma_east_step(s, 9, None, Some(nv));
    lemma_zone_step(s, 17, Some(nv), Some(ev));
}

proof fn lemma_east_zone_north(zone: Seq<char>, north: Seq<char>, east: Seq<char>, rest: Seq<char>)
    requires
        position_tokens(zone, north, east, rest),
    ensures
        spec_position(east + zone + north + rest, 0) == Step::Done(position_of(zone, north, east), 20usize),
{
    let s = east + zone + north + rest;
    lemma_three_placed(s, east, zone, north, rest);
    lemma_placed_axis(s, 0, east, 'e', 'E', 6);
    lemma_placed_zone(s, 8, zone);
    lemma_placed_axis(s, 11, north, 'n', 'N', 7);
    let z = zone_of(zone[1], zone[2])->0;
    let ev = digits_value(east.subrange(2, 8)) as u32;
    lemma_east_step(s, 0, None, None);
    lemma_zone_step(s, 8, None, Some(ev));
    lemma_north_step(s, 11, Some(z), Some(ev));
}

proof fn lemma_east_north_zone(zone: Seq<char>, north: Seq<char>, east: Seq<char>, rest: Seq<char>)
    requires
        position_tokens(zone, north, east, rest),
    ensures
        spec_position(east + north + zone + rest, 0) == Step::Done(position_of(zone, north, east), 20usize),
{
    let s = east + north + zone + rest;
    lemma_three_placed(s, east, north, zone, rest);
    lemma_placed_axis(s, 0, east, 'e', 'E', 6);
    lemma_placed_axis(s, 8, north, 'n', 'N', 7);
    lemma_placed_zone(s, 17, zone);
    let nv = digits_value(north.subrange(2, 9)) as u32;
    let ev = digits_value(east.subrange(2, 8)) as u32;
    lemma_east_step(s, 0, None, None);
    lemma_north_step(s, 8, None, Some(ev));
    lemma_zone_step(s, 17, Some(nv), Some(ev));
}

/// The three fields of a position give the same position in each of their
/// six orders: a zone given as two digits, a northing as `N` and seven
/// digits, an easting as `E` and six digits, each after a space, whatever
/// follows after further whitespace.
pub proof fn law_position_fields_in_any_order(
    zone: Seq<char>,
    north: Seq<char>,
    east: Seq<char>,
    rest: Seq<char>,
)
    requires
        position_tokens(zone, north, east, rest),
    ensures
        ({
            let r = Step::Done(position_of(zone, north, east), 20usize);
            &&& spec_position(zone + north + east + rest, 0) == r
            &&& spec_position(zone + east + north + rest, 0) == r
            &&& spec_position(north + zone + east + rest, 0) == r
            &&& spec_position(north + east + zone + rest, 0) == r
            &&& spec_position(east + zone + north + rest, 0) == r
            &&& spec_position(east + north + zone + rest, 0) == r
        }),
{
    lemma_zone_north_east(zone, north, east, rest);
    lemma_zone_east_north(zone, north, east, rest);
    lemma_north_zone_east(zone, north, east, rest);
    lemma_north_east_zone(zone, north, east, rest);
    lemma_east_zone_north(zone, north, east, rest);
    lemma_east_north_zone(zone, north, east, rest);
}


/// The lower-case word for an action.
pub open spec fn action_word(a: Action) -> Seq<char> {
    match a {
        Action::Tent => tent_lower(),
        Action::Hut => hut_lower(),
        Action::Food => food_lower(),
    }
}

/// A space and the word for an action.
pub open spec fn action_token(a: Action) -> Seq<char> {
    seq![' '] + action_word(a)
}

/// A space and the text `m` escaped and in quotes.
pub open spec fn message_token(m: Seq<char>) -> Seq<char> {
    seq![' ', '"'] + escape(m) + seq!['"']
}

/// A space and a clock time `hh:mm` of two digits each.
pub open spec fn is_time_token(t: Seq<char>) -> bool {
    &&& t.len() == 6
    &&& t[0] == ' '
    &&& is_digit(t[1])
    &&& is_digit(t[2])
    &&& t[3] == ':'
    &&& is_digit(t[4])
    &&& is_digit(t[5])
    &&& is_clock_time(
        digits_value(t.subrange(1, 3)) as int,
        digits_value(t.subrange(4, 6)) as int,
        0,
    )
}

/// The time that a time token stands for.
pub open spec fn time_of(t: Seq<char>) -> Time {
    Time {
        hour: digits_value(t.subrange(1, 3)) as u32,
        minute: digits_value(t.subrange(4, 6)) as u32,
        second: 0,
    }
}

proof fn lemma_at_action(s: Seq<char>, i: int, a: Action)
    requires
        0 <= i,
        i + action_token(a).len() <= s.len() <= usize::MAX,
        s.subrange(i, i + action_token(a).len()) == action_token(a),
    ensures
        spec_action(s, i) == Step::Done(a, (i + action_token(a).len()) as usize),
        spec_message(s, i) is Soft,
        spec_time_group(s, i) is Soft,
{
    let tok = action_token(a);
    assert forall|j: int| 0 <= j < tok.len() implies #[trigger] s[i + j] == tok[j] by {
        assert(s.subrange(i, i + tok.len())[j] == tok[j]);
    }
    assert(s[i + 0] == tok[0] && tok[0] == ' ');
    assert(s[i + 1] == tok[1]);
    assert(space_end(s, i + 1) == i + 1);
    assert(space_end(s, i) == i + 1);
    assert(digits_end(s, i + 1) == i + 1);
    match a {
        Action::Tent => {
            assert(keyword_at(s, i + 1, tent_lower(), tent_upper())) by {
                assert forall|j: int| 0 <= j < tent_lower().len() implies #[trigger] s[i + 1 + j]
                    == tent_lower()[j] || s[i + 1 + j] == tent_upper()[j] by {
                    assert(s[i + (1 + j)] == tok[1 + j]);
                }
            }
        },
        Action::Hut => {
            assert(s[i + 1 + 0] == 'h');
            assert(keyword_at(s, i + 1, hut_lower(), hut_upper())) by {
                assert forall|j: int| 0 <= j < hut_lower().len() implies #[trigger] s[i + 1 + j]
                    == hut_lower()[j] || s[i + 1 + j] == hut_upper()[j] by {
                    assert(s[i + (1 + j)] == tok[1 + j]);
                }
            }
        },
        Action::Food => {
            assert(s[i + 1 + 0] == 'f');
            assert(keyword_at(s, i + 1, food_lower(), food_upper())) by {
                assert forall|j: int| 0 <= j < food_lower().len() implies #[trigger] s[i + 1 + j]
                    == food_lower()[j] || s[i + 1 + j] == food_upper()[j] by {
                    assert(s[i + (1 + j)] == tok[1 + j]);
                }
            }
        },
    }
}

proof fn lemma_at_message(s: Seq<char>, i: int, m: Seq<char>)
    requires
        0 <= i,
        m.len() > 0,
        i + message_token(m).len() <= s.len() <= usize::MAX,
        s.subrange(i, i + message_token(m).len()) == message_token(m),
    ensures
        spec_message(s, i) == Step::Done(
            unescape(escape(m)),
            (i + message_token(m).len()) as usize,
        ),
        spec_action(s, i) is Soft,
        spec_time_group(s, i) is Soft,
{
    let tok = message_token(m);
    let e = escape(m);
    assert forall|j: int| 0 <= j < tok.len() implies #[trigger] s[i + j] == tok[j] by {
        assert(s.subrange(i, i + tok.len())[j] == tok[j]);
    }
    assert(s[i + 0] == tok[0] && tok[0] == ' ');
    assert(s[i + 1] == tok[1] && tok[1] == '"');
    assert(space_end(s, i + 1) == i + 1);
    assert(space_end(s, i) == i + 1);
    assert(digits_end(s, i + 1) == i + 1);
    assert(e.len() > 0);
    assert(s.subrange(i + 2, i + 2 + e.len()) =~= e) by {
        assert forall|j: int| 0 <= j < e.len() implies #[trigger] s.subrange(i + 2, i + 2 + e.len())[j]
            == e[j] by {
            assert(s[i + (2 + j)] == tok[2 + j]);
        }
    }
    assert(s[i + 2 + e.len()] == '"') by {
        assert(s[i + (2 + e.len())] == tok[2 + e.len() as int]);
    }
    lemma_escape_scans_to_quote(s, i + 2, m);
    assert(s[i + 1 + 0] == '"');
}

proof fn lemma_at_time(s: Seq<char>, i: int, t: Seq<char>)
    requires
        0 <= i,
        is_time_token(t),
        i + 6 <= s.len() <= usize::MAX,
        s.subrange(i, i + 6) == t,
        i + 6 == s.len() || is_space(s[i + 6]),
    ensures
        spec_time_group(s, i) == Step::Done(
            (None::<crate::command::Date>, Some(time_of(t))),
            (i + 6) as usize,
        ),
        spec_time(s, i) == Step::Done(time_of(t), (i + 6) as usize),
        spec_action(s, i) is Soft,
        spec_message(s, i) is Soft,
{
    assert forall|j: int| 0 <= j < 6 implies #[trigger] s[i + j] == t[j] by {
        assert(s.subrange(i, i + 6)[j] == t[j]);
    }
    assert(space_end(s, i + 1) == i + 1);
    assert(space_end(s, i) == i + 1);
    assert(s[i + 0] == t[0]);
    assert(is_digit(s[i + 1]) && is_digit(s[i + 2]) && s[i + 3] == ':');
    assert(is_digit(s[i + 4]) && is_digit(s[i + 5]));
    assert(digits_end(s, i + 3) == i + 3);
    assert(digits_end(s, i + 2) == i + 3);
    assert(digits_end(s, i + 1) == i + 3);
    assert(digits_end(s, i + 6) == i + 6);
    assert(digits_end(s, i + 5) == i + 6);
    assert(digits_end(s, i + 4) == i + 6);
    let h = s.subrange(i + 1, i + 3);
    let mi = s.subrange(i + 4, i + 6);
    assert(h =~= t.subrange(1, 3));
    assert(mi =~= t.subrange(4, 6));
    assert forall|j: int| 0 <= j < h.len() implies is_digit(#[trigger] h[j]) by {
        assert(h[j] == s[i + 1 + j]);
    }
    assert forall|j: int| 0 <= j < mi.len() implies is_digit(#[trigger] mi[j]) by {
        assert(mi[j] == s[i + 4 + j]);
    }
    lemma_digits_below_pow10(h);
    lemma_digits_below_pow10(mi);
    reveal_with_fuel(pow10, 3);
    assert(spec_date(s, i) is Soft);
    assert(s[i + 1 + 0] == t[1]);
}


/// A space and a date `yyyy-mm-dd` that exists and lies in 1970 to 2029.
pub open spec fn is_date_token(d: Seq<char>) -> bool {
    &&& d.len() == 11
    &&& d[0] == ' '
    &&& forall|j: int| 1 <= j < 5 ==> is_digit(#[trigger] d[j])
    &&& d[5] == '-'
    &&& is_digit(d[6])
    &&& is_digit(d[7])
    &&& d[8] == '-'
    &&& is_digit(d[9])
    &&& is_digit(d[10])
    &&& is_calendar_date(
        digits_value(d.subrange(1, 5)) as int,
        digits_value(d.subrange(6, 8)) as int,
        digits_value(d.subrange(9, 11)) as int,
    )
    &&& 1970 <= digits_value(d.subrange(1, 5)) < 2030
}

/// The date that a date token stands for.
pub open spec fn date_of(d: Seq<char>) -> Date {
    Date {
        year: digits_value(d.subrange(1, 5)) as i32,
        month: digits_value(d.subrange(6, 8)) as u32,
        day: digits_value(d.subrange(9, 11)) as u32,
    }
}

/// A time token, or a date token immediately followed by a time token.
pub open spec fn is_group_token(g: Seq<char>) -> bool {
    ||| is_time_token(g)
    ||| (g.len() == 17 && is_date_token(g.subrange(0, 11)) && is_time_token(g.subrange(11, 17)))
}

/// The date and time that a group token stands for.
pub open spec fn group_of(g: Seq<char>) -> TimeGroup {
    if g.len() == 6 {
        (None, Some(time_of(g)))
    } else {
        (Some(date_of(g.subrange(0, 11))), Some(time_of(g.subrange(11, 17))))
    }
}

proof fn lemma_two_digits(s: Seq<char>, a: int)
    requires
        0 <= a,
        a + 2 <= s.len(),
        is_digit(s[a]) && is_digit(s[a + 1]),
    ensures
        digits_value(s.subrange(a, a + 2)) < 100,
{
    let d = s.subrange(a, a + 2);
    assert(d[0] == s[a] && d[1] == s[a + 1]);
    lemma_digits_below_pow10(d);
    reveal_with_fuel(pow10, 3);
}

proof fn lemma_at_date(s: Seq<char>, i: int, d: Seq<char>)
    requires
        0 <= i,
        is_date_token(d),
        i + 11 < s.len() <= usize::MAX,
        s.subrange(i, i + 11) == d,
        !is_digit(s[i + 11]),
    ensures
        spec_date(s, i) == Step::Done(date_of(d), (i + 11) as usize),
        spec_action(s, i) is Soft,
        spec_message(s, i) is Soft,
{
    assert forall|j: int| 0 <= j < 11 implies #[trigger] s[i + j] == d[j] by {
        assert(s.subrange(i, i + 11)[j] == d[j]);
    }
    assert(s[i + 0] == d[0]);
    assert(space_end(s, i + 1) == i + 1);
    assert(space_end(s, i) == i + 1);
    assert(is_digit(s[i + 1]) && is_digit(s[i + 2]) && is_digit(s[i + 3]) && is_digit(s[i + 4]));
    assert(s[i + 5] == '-' && s[i + 8] == '-');
    assert(is_digit(s[i + 6]) && is_digit(s[i + 7]) && is_digit(s[i + 9]) && is_digit(s[i + 10]));
    assert(digits_end(s, i + 5) == i + 5);
    assert(digits_end(s, i + 4) == i + 5);
    assert(digits_end(s, i + 3) == i + 5);
    assert(digits_end(s, i + 2) == i + 5);
    assert(digits_end(s, i + 1) == i + 5);
    assert(digits_end(s, i + 8) == i + 8);
    assert(digits_end(s, i + 7) == i + 8);
    assert(digits_end(s, i + 6) == i + 8);
    assert(digits_end(s, i + 11) == i + 11);
    assert(digits_end(s, i + 10) == i + 11);
    assert(digits_end(s, i + 9) == i + 11);
    assert(s.subrange(i + 1, i + 5) =~= d.subrange(1, 5));
    assert(s.subrange(i + 6, i + 8) =~= d.subrange(6, 8));
    assert(s.subrange(i + 9, i + 11) =~= d.subrange(9, 11));
    lemma_two_digits(s, i + 6);
    lemma_two_digits(s, i + 9);
    assert(s[i + 1 + 0] == d[1]);
}

proof fn lemma_at_group(s: Seq<char>, i: int, g: Seq<char>)
    requires
        0 <= i,
        is_group_token(g),
        i + g.len() <= s.len() <= usize::MAX,
        s.subrange(i, i + g.len()) == g,
        i + g.len() == s.len() || is_space(s[i + g.len()]),
    ensures
        spec_time_group(s, i) == Step::Done(group_of(g), (i + g.len()) as usize),
        spec_action(s, i) is Soft,
        spec_message(s, i) is Soft,
{
    if is_time_token(g) {
        lemma_at_time(s, i, g);
    } else {
        let d = g.subrange(0, 11);
        let t = g.subrange(11, 17);
        assert(s.subrange(i, i + 11) =~= d);
        assert(s.subrange(i + 11, i + 17) =~= t);
        assert(s[i + 11] == g[11] && g[11] == t[0]);
        lemma_at_date(s, i, d);
        lemma_at_time(s, i + 11, t);
    }
}

proof fn lemma_action_round(
    s: Seq<char>,
    i: int,
    a: Action,
    pos: Position,
    msg: Option<Seq<char>>,
    tg: Option<TimeGroup>,
)
    requires
        0 <= i,
        i + action_token(a).len() <= s.len() <= usize::MAX,
        s.subrange(i, i + action_token(a).len()) == action_token(a),
    ensures
        point_rounds(s, i, true, true, true, Some(pos), None, msg, tg) == point_rounds(
            s,
            i + action_token(a).len(),
            true,
            true,
            true,
            Some(pos),
            Some(a),
            msg,
            tg,
        ),
{
    lemma_at_action(s, i, a);
}

proof fn lemma_message_round(
    s: Seq<char>,
    i: int,
    m: Seq<char>,
    pos: Position,
    act: Option<Action>,
    tg: Option<TimeGroup>,
)
    requires
        0 <= i,
        m.len() > 0,
        i + message_token(m).len() <= s.len() <= usize::MAX,
        s.subrange(i, i + message_token(m).len()) == message_token(m),
    ensures
        point_rounds(s, i, true, true, true, Some(pos), act, None, tg) == point_rounds(
            s,
            i + message_token(m).len(),
            true,
            true,
            true,
            Some(pos),
            act,
            Some(unescape(escape(m))),
            tg,
        ),
{
    lemma_at_message(s, i, m);
}

proof fn lemma_group_round(
    s: Seq<char>,
    i: int,
    t: Seq<char>,
    pos: Position,
    act: Option<Action>,
    msg: Option<Seq<char>>,
)
    requires
        0 <= i,
        is_group_token(t),
        i + t.len() <= s.len() <= usize::MAX,
        s.subrange(i, i + t.len()) == t,
        i + t.len() == s.len() || is_space(s[i + t.len()]),
    ensures
        point_rounds(s, i, true, true, true, Some(pos), act, msg, None) == point_rounds(
            s,
            i + t.len(),
            true,
            true,
            true,
            Some(pos),
            act,
            msg,
            Some(group_of(t)),
        ),
{
    lemma_at_group(s, i, t);
}

/// The requirements on the tokens of a point law: a position of three
/// fields as in the position law, an action word, a non-empty message and a
/// time group.
pub open spec fn point_tokens(
    zone: Seq<char>,
    north: Seq<char>,
    east: Seq<char>,
    a: Action,
    m: Seq<char>,
    t: Seq<char>,
    rest: Seq<char>,
) -> bool {
    &&& is_zone_token(zone)
    &&& is_axis_token(north, 'n', 'N', 7)
    &&& is_axis_token(east, 'e', 'E', 6)
    &&& m.len() > 0
    &&& is_group_token(t)
    &&& (rest.len() == 0 || is_space(rest[0]))
    &&& 20 + action_token(a).len() + message_token(m).len() + t.len() + rest.len() <= usize::MAX
}

/// The point that such tokens stand for.
pub open spec fn point_of(
    zone: Seq<char>,
    north: Seq<char>,
    east: Seq<char>,
    a: Action,
    m: Seq<char>,
    t: Seq<char>,
) -> PointView {
    PointView {
        position: position_of(zone, north, east),
        action: Some(a),
        message: Some(unescape(escape(m))),
        date: group_of(t).0,
        time: group_of(t).1,
    }
}

pub open spec fn point_len(a: Action, m: Seq<char>, t: Seq<char>) -> int {
    20 + action_token(a).len() as int + message_token(m).len() as int + t.len() as int
}

proof fn lemma_point_start(
    s: Seq<char>,
    zone: Seq<char>,
    north: Seq<char>,
    east: Seq<char>,
    tail: Seq<char>,
)
    requires
        s == zone + north + east + tail,
        position_tokens(zone, north, east, tail),
    ensures
        point_rounds(s, 0, true, true, true, None, None, None, None) == point_rounds(
            s,
            20,
            true,
            true,
            true,
            Some(position_of(zone, north, east)),
            None,
            None,
            None,
        ),
{
    law_position_fields_in_any_order(zone, north, east, tail);
}

proof fn lemma_after_head(
    s: Seq<char>,
    head: Seq<char>,
    x: Seq<char>,
    y: Seq<char>,
    z: Seq<char>,
    rest: Seq<char>,
)
    requires
        s == head + x + y + z + rest,
        x.len() > 0 && y.len() > 0 && z.len() > 0,
        x[0] == ' ' && y[0] == ' ' && z[0] == ' ',
        rest.len() == 0 || is_space(rest[0]),
    ensures
        ({
            let a = head.len() as int;
            let b = a + x.len();
            let c = b + y.len();
            let d = c + z.len();
            &&& s.subrange(a, b) == x
            &&& s.subrange(b, c) == y
            &&& s.subrange(c, d) == z
            &&& is_space(s[b])
            &&& is_space(s[c])
            &&& (d == s.len() || is_space(s[d]))
        }),
{
    let a = head.len() as int;
    let b = a + x.len();
    let c = b + y.len();
    let d = c + z.len();
    assert(s.subrange(a, b) =~= x);
    assert(s.subrange(b, c) =~= y);
    assert(s.subrange(c, d) =~= z);
    assert(s[b] == y[0]);
    assert(s[c] == z[0]);
    if d < s.len() {
        assert(s[d] == rest[0]);
    }
}

proof fn lemma_point_amt(
    zone: Seq<char>,
    north: Seq<char>,
    east: Seq<char>,
    a: Action,
    m: Seq<char>,
    t: Seq<char>,
    rest: Seq<char>,
)
    requires
        point_tokens(zone, north, east, a, m, t, rest),
    ensures
        spec_point(zone + north + east + action_token(a) + message_token(m) + t + rest, 0) == Step::Done(
            point_of(zone, north, east, a, m, t),
            point_len(a, m, t) as usize,
        ),
{
    let head = zone + north + east;
    let x = action_token(a);
    let y = message_token(m);
    let z = t;
    let s = head + x + y + z + rest;
    assert(x[0] == ' ' && y[0] == ' ' && z[0] == ' ');
    lemma_after_head(s, head, x, y, z, rest);
    let tail = x + y + z + rest;
    assert(s =~= zone + north + east + tail);
    assert(tail[0] == ' ');
    lemma_point_start(s, zone, north, east, tail);
    let pos = position_of(zone, north, east);
    let mv = unescape(escape(m));
    let tv = group_of(t);
    lemma_action_round(s, 20, a, pos, None, None);
    lemma_message_round(s, (20 + x.len()) as int, m, pos, Some(a), None);
    lemma_group_round(s, (20 + x.len() + y.len()) as int, t, pos, Some(a), Some(mv));
}

proof fn lemma_point_atm(
    zone: Seq<char>,
    north: Seq<char>,
    east: Seq<char>,
    a: Action,
    m: Seq<char>,
    t: Seq<char>,
    rest: Seq<char>,
)
    requires
        point_tokens(zone, north, east, a, m, t, rest),
    ensures
        spec_point(zone + north + east + action_token(a) + t + message_token(m) + rest, 0) == Step::Done(
            point_of(zone, north, east, a, m, t),
            point_len(a, m, t) as usize,
        ),
{
    let head = zone + north + east;
    let x = action_token(a);
    let y = t;
    let z = message_token(m);
    let s = head + x + y + z + rest;
    assert(x[0] == ' ' && y[0] == ' ' && z[0] == ' ');
    lemma_after_head(s, head, x, y, z, rest);
    let tail = x + y + z + rest;
    assert(s =~= zone + north + east + tail);
    assert(tail[0] == ' ');
    lemma_point_start(s, zone, north, east, tail);
    let pos = position_of(zone, north, east);
    let mv = unescape(escape(m));
    let tv = group_of(t);
    lemma_action_round(s, 20, a, pos, None, None);
    lemma_group_round(s, (20 + x.len()) as int, t, pos, Some(a), None);
    lemma_message_round(s, (20 + x.len() + y.len()) as int, m, pos, Some(a), Some(tv));
}

proof fn lemma_point_mat(
    zone: Seq<char>,
    north: Seq<char>,
    east: Seq<char>,
    a: Action,
    m: Seq<char>,
    t: Seq<char>,
    rest: Seq<char>,
)
    requires
        point_tokens(zone, north, east, a, m, t, rest),
    ensures
        spec_point(zone + north + east + message_token(m) + action_token(a) + t + rest, 0) == Step::Done(
            point_of(zone, north, east, a, m, t),
            point_len(a, m, t) as usize,
        ),
{
    let head = zone + north + east;
    let x = message_token(m);
    let y = action_token(a);
    let z = t;
    let s = head + x + y + z + rest;
    assert(x[0] == ' ' && y[0] == ' ' && z[0] == ' ');
    lemma_after_head(s, head, x, y, z, rest);
    let tail = x + y + z + rest;
    assert(s =~= zone + north + east + tail);
    assert(tail[0] == ' ');
    lemma_point_start(s, zone, north, east, tail);
    let pos = position_of(zone, north, east);
    let mv = unescape(escape(m));
    let tv = group_of(t);
    lemma_message_round(s, 20, m, pos, None, None);
    lemma_action_round(s, (20 + x.len()) as int, a, pos, Some(mv), None);
    lemma_group_round(s, (20 + x.len() + y.len()) as int, t, pos, Some(a), Some(mv));
}

proof fn lemma_point_mta(
    zone: Seq<char>,
    north: Seq<char>,
    east: Seq<char>,
    a: Action,
    m: Seq<char>,
    t: Seq<char>,
    rest: Seq<char>,
)
    requires
        point_tokens(zone, north, east, a, m, t, rest),
    ensures
        spec_point(zone + north + east + message_token(m) + t + action_token(a) + rest, 0) == Step::Done(
            point_of(zone, north, east, a, m, t),
            point_len(a, m, t) as usize,
        ),
{
    let head = zone + north + east;
    let x = message_token(m);
    let y = t;
    let z = action_token(a);
    let s = head + x + y + z + rest;
    assert(x[0] == ' ' && y[0] == ' ' && z[0] == ' ');
    lemma_after_head(s, head, x, y, z, rest);
    let tail = x + y + z + rest;
    assert(s =~= zone + north + east + tail);
    assert(tail[0] == ' ');
    lemma_point_start(s, zone, north, east, tail);
    let pos = position_of(zone, north, east);
    let mv = unescape(escape(m));
    let tv = group_of(t);
    lemma_message_round(s, 20, m, pos, None, None);
    lemma_group_round(s, (20 + x.len()) as int, t, pos, None, Some(mv));
    lemma_action_round(s, (20 + x.len() + y.len()) as int, a, pos, Some(mv), Some(tv));
    let end = (20 + x.len() + y.len() + z.len()) as int;
    assert(end == point_len(a, m, t));
    assert(point_rounds(s, end, true, true, true, Some(pos), Some(a), Some(mv), Some(tv))
        == Step::Done(point_of(zone, north, east, a, m, t), end as usize));
}

proof fn lemma_point_tam(
    zone: Seq<char>,
    north: Seq<char>,
    east: Seq<char>,
    a: Action,
    m: Seq<char>,
    t: Seq<char>,
    rest: Seq<char>,
)
    requires
        point_tokens(zone, north, east, a, m, t, rest),
    ensures
        spec_point(zone + north + east + t + action_token(a) + message_token(m) + rest, 0) == Step::Done(
            point_of(zone, north, east, a, m, t),
            point_len(a, m, t) as usize,
        ),
{
    let head = zone + north + east;
    let x = t;
    let y = action_token(a);
    let z = message_token(m);
    let s = head + x + y + z + rest;
    assert(x[0] == ' ' && y[0] == ' ' && z[0] == ' ');
    lemma_after_head(s, head, x, y, z, rest);
    let tail = x + y + z + rest;
    assert(s =~= zone + north + east + tail);
    assert(tail[0] == ' ');
    lemma_point_start(s, zone, north, east, tail);
    let pos = position_of(zone, north, east);
    let mv = unescape(escape(m));
    let tv = group_of(t);
    lemma_group_round(s, 20, t, pos, None, None);
    lemma_action_round(s, (20 + x.len()) as int, a, pos, None, Some(tv));
    lemma_message_round(s, (20 + x.len() + y.len()) as int, m, pos, Some(a), Some(tv));
}

proof fn lemma_point_tma(
    zone: Seq<char>,
    north: Seq<char>,
    east: Seq<char>,
    a: Action,
    m: Seq<char>,
    t: Seq<char>,
    rest: Seq<char>,
)
    requires
        point_tokens(zone, north, east, a, m, t, rest),
    ensures
        spec_point(zone + north + east + t + message_token(m) + action_token(a) + rest, 0) == Step::Done(
            point_of(zone, north, east, a, m, t),
            point_len(a, m, t) as usize,
        ),
{
    let head = zone + north + east;
    let x = t;
    let y = message_token(m);
    let z = action_token(a);
    let s = head + x + y + z + rest;
    assert(x[0] == ' ' && y[0] == ' ' && z[0] == ' ');
    lemma_after_head(s, head, x, y, z, rest);
    let tail = x + y + z + rest;
    assert(s =~= zone + north + east + tail);
    assert(tail[0] == ' ');
    lemma_point_start(s, zone, north, east, tail);
    let pos = position_of(zone, north, east);
    let mv = unescape(escape(m));
    let tv = group_of(t);
    lemma_group_round(s, 20, t, pos, None, None);
    lemma_message_round(s, (20 + x.len()) as int, m, pos, None, Some(tv));
    lemma_action_round(s, (20 + x.len() + y.len()) as int, a, pos, Some(mv), Some(tv));
}

/// After a position, an action word, a quoted message and a time group (a
/// time, or a date directly followed by a time) give the same point in each
/// of their six orders, whatever follows after further whitespace.
pub proof fn law_point_fields_in_any_order(
    zone: Seq<char>,
    north: Seq<char>,
    east: Seq<char>,
    a: Action,
    m: Seq<char>,
    t: Seq<char>,
    rest: Seq<char>,
)
    requires
        point_tokens(zone, north, east, a, m, t, rest),
    ensures
        ({
            let p = zone + north + east;
            let (x, y, z) = (action_token(a), message_token(m), t);
            let r = Step::Done(point_of(zone, north, east, a, m, t), point_len(a, m, t) as usize);
            &&& spec_point(p + x + y + z + rest, 0) == r
            &&& spec_point(p + x + z + y + rest, 0) == r
            &&& spec_point(p + y + x + z + rest, 0) == r
            &&& spec_point(p + y + z + x + rest, 0) == r
            &&& spec_point(p + z + x + y + rest, 0) == r
            &&& spec_point(p + z + y + x + rest, 0) == r
        }),
{
    lemma_point_amt(zone, north, east, a, m, t, rest);
    lemma_point_atm(zone, north, east, a, m, t, rest);
    lemma_point_mat(zone, north, east, a, m, t, rest);
    lemma_point_mta(zone, north, east, a, m, t, rest);
    lemma_point_tam(zone, north, east, a, m, t, rest);
    lemma_point_tma(zone, north, east, a, m, t, rest);
}

} // verus!
