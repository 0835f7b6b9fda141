//! The fields of a point: projection, coordinates, action, message, date
//! and time. Each parser starts with the whitespace that must precede its
//! field and is stated by a spec function of the same name.
use vstd::prelude::*;

use crate::calendar::{calendar_date_exists, clock_time_exists, is_calendar_date, is_clock_time};
use crate::command::{Action, Date, Projection, Time};
use crate::error::{ErrorKind, ParseError, Span};
use crate::lexer::{
    digit_value, digits_end, digits_number, digits_value, is_digit, keyword_at, lemma_digits_end_bounds,
    lemma_space_end_bounds, match_keyword, skip_digits, skip_space, space_end,
};
use crate::step::Step;

verus! {

/// A fatal failure of the field that began at `input`, blaming `[start, end)`.
pub open spec fn fatal<T>(input: int, start: int, end: int, kind: ErrorKind) -> Step<T> {
    Step::Hard(
        ParseError {
            input: input as usize,
            span: Some(Span { start: start as usize, end: end as usize }),
            error: kind,
        },
    )
}

pub fn make_fatal<T>(input: usize, start: usize, end: usize, kind: ErrorKind) -> (r: Step<T>)
    ensures
        r == fatal::<T>(input as int, start as int, end as int, kind),
{
    Step::Hard(ParseError { input, span: Some(Span { start, end }), error: kind })
}

pub open spec fn pow10(n: nat) -> nat
    decreases n,
{
    if n == 0 {
        1
    } else {
        10 * pow10((n - 1) as nat)
    }
}

/// The digits at `p`, read as a number no larger than `max`, inside the field
/// that began at `field`.
pub open spec fn spec_number(s: Seq<char>, p: int, max: nat, field: int) -> Step<u32> {
    let e = digits_end(s, p);
    if e == p {
        Step::Soft
    } else if digits_value(s.subrange(p, e)) > max {
        fatal(field, p, e, ErrorKind::ParseNumber)
    } else {
        Step::Done(digits_value(s.subrange(p, e)) as u32, e as usize)
    }
}

pub fn parse_number(s: &Vec<char>, p: usize, max: u32, field: usize) -> (r: Step<u32>)
    requires
        p <= s@.len(),
    ensures
        r == spec_number(s@, p as int, max as nat, field as int),
{
    let e = skip_digits(s, p);
    proof {
        lemma_digits_end_bounds(s@, p as int);
    }
    if e == p {
        return Step::Soft;
    }
    match digits_number(s, p, e, max) {
        Some(v) => Step::Done(v, e),
        None => make_fatal(field, p, e, ErrorKind::ParseNumber),
    }
}

pub open spec fn utm_lower() -> Seq<char> {
    seq!['u', 't', 'm']
}

pub open spec fn utm_upper() -> Seq<char> {
    seq!['U', 'T', 'M']
}

/// The zone that a two-digit code names, if any.
pub open spec fn zone_of(a: char, b: char) -> Option<Projection> {
    if a != '3' {
        None
    } else if b == '2' {
        Some(Projection::UTM32)
    } else if b == '3' {
        Some(Projection::UTM33)
    } else if b == '4' {
        Some(Projection::UTM34)
    } else if b == '5' {
        Some(Projection::UTM35)
    } else {
        None
    }
}

/// Whitespace, an optional `UTM` and exactly two digits naming a zone. Any
/// other two-digit code is fatal; a digit run of another length is no
/// projection at all.
pub open spec fn spec_projection(s: Seq<char>, p: int) -> Step<Projection> {
    let t = space_end(s, p);
    let d = if keyword_at(s, t, utm_lower(), utm_upper()) {
        t + 3
    } else {
        t
    };
    let e = digits_end(s, d);
    if t == p || e - d != 2 {
        Step::Soft
    } else {
        match zone_of(s[d], s[d + 1]) {
            Some(z) => Step::Done(z, e as usize),
            None => fatal(p, t, e, ErrorKind::ParseProjection),
        }
    }
}

pub fn parse_projection(s: &Vec<char>, p: usize) -> (r: Step<Projection>)
    requires
        p <= s@.len(),
    ensures
        r == spec_projection(s@, p as int),
{
    let t = skip_space(s, p);
    let lower = vec!['u', 't', 'm'];
    let upper = vec!['U', 'T', 'M'];
    assert(lower@ == utm_lower() && upper@ == utm_upper());
    let d = if match_keyword(s, t, &lower, &upper) {
        t + 3
    } else {
        t
    };
    let e = skip_digits(s, d);
    proof {
        lemma_digits_end_bounds(s@, d as int);
    }
    if t == p || e - d != 2 {
        return Step::Soft;
    }
    let a = s[d];
    let b = s[d + 1];
    if a == '3' && b == '2' {
        Step::Done(Projection::UTM32, e)
    } else if a == '3' && b == '3' {
        Step::Done(Projection::UTM33, e)
    } else if a == '3' && b == '4' {
        Step::Done(Projection::UTM34, e)
    } else if a == '3' && b == '5' {
        Step::Done(Projection::UTM35, e)
    } else {
        make_fatal(p, t, e, ErrorKind::ParseProjection)
    }
}


pub proof fn lemma_digits_below_pow10(d: Seq<char>)
    requires
        forall|i: int| 0 <= i < d.len() ==> is_digit(#[trigger] d[i]),
    ensures
        digits_value(d) < pow10(d.len()),
    decreases d.len(),
{
    if d.len() > 0 {
        let init = d.drop_last();
        assert forall|i: int| 0 <= i < init.len() implies is_digit(#[trigger] init[i]) by {
            assert(init[i] == d[i]);
        }
        lemma_digits_below_pow10(init);
        assert(is_digit(d[d.len() - 1]));
        let a = digits_value(init);
        let b = pow10(init.len());
        let c = digit_value(d.last());
        assert(c <= 9);
        assert(a * 10 + c < b * 10) by (nonlinear_arith)
            requires a < b, c <= 9;
    }
}

pub proof fn lemma_pow10_add(a: nat, b: nat)
    ensures
        pow10(a) * pow10(b) == pow10(a + b),
    decreases a,
{
    if a == 0 {
        assert(pow10(a) == 1);
        assert(a + b == b);
    } else {
        let a1 = (a - 1) as nat;
        lemma_pow10_add(a1, b);
        assert(pow10(a) == 10 * pow10(a1));
        assert(pow10(a) * pow10(b) == 10 * (pow10(a1) * pow10(b))) by (nonlinear_arith)
            requires pow10(a) == 10 * pow10(a1);
        assert((a + b) as nat - 1 == a1 + b);
        assert(pow10((a + b) as nat) == 10 * pow10((a1 + b) as nat));
    }
}

/// Whitespace, an optional unit letter, a digit run, an optional `,` or `.`
/// and discarded decimals, normalised to `width` digits.
///
/// A digit run of exactly `width` digits is kept as it is. One of three to
/// `width` digits after the unit letter and without a separator is scaled by
/// ten to the missing digits. A shorter run with a separator is fatal. Any
/// other token is no coordinate.
pub open spec fn spec_coordinate(s: Seq<char>, p: int, lower: char, upper: char, width: nat) -> Step<u32> {
    let t = space_end(s, p);
    let prefixed = t < s.len() && (s[t] == lower || s[t] == upper);
    let d = if prefixed {
        t + 1
    } else {
        t
    };
    let e = digits_end(s, d);
    let v = digits_value(s.subrange(d, e));
    let sep = e < s.len() && (s[e] == ',' || s[e] == '.');
    let f = if sep {
        e + 1
    } else {
        e
    };
    let end = digits_end(s, f);
    let n = e - d;
    if t == p || e == d {
        Step::Soft
    } else if v > u32::MAX {
        fatal(p, d, e, ErrorKind::ParseNumber)
    } else if n == width {
        Step::Done(v as u32, end as usize)
    } else if prefixed && !sep && 2 < n <= width {
        Step::Done((v * pow10((width - n) as nat)) as u32, end as usize)
    } else if sep && n <= width {
        fatal(p, t, end, ErrorKind::ParseCoordinate)
    } else {
        Step::Soft
    }
}

/// The northing of a position: seven digits, unit letter `N`.
pub open spec fn spec_northings(s: Seq<char>, p: int) -> Step<u32> {
    spec_coordinate(s, p, 'n', 'N', 7)
}

/// The easting of a position: six digits, unit letter `E`.
pub open spec fn spec_eastings(s: Seq<char>, p: int) -> Step<u32> {
    spec_coordinate(s, p, 'e', 'E', 6)
}

fn parse_coordinate(s: &Vec<char>, p: usize, lower: char, upper: char, width: usize) -> (r: Step<u32>)
    requires
        p <= s@.len(),
        3 <= width <= 7,
    ensures
        r == spec_coordinate(s@, p as int, lower, upper, width as nat),
{
    let n = s.len();
    let t = skip_space(s, p);
    let prefixed = t < n && (s[t] == lower || s[t] == upper);
    let d = if prefixed {
        t + 1
    } else {
        t
    };
    let e = skip_digits(s, d);
    proof {
        lemma_digits_end_bounds(s@, d as int);
    }
    if t == p || e == d {
        return Step::Soft;
    }
    let v = match digits_number(s, d, e, u32::MAX) {
        Some(v) => v,
        None => {
            return make_fatal(p, d, e, ErrorKind::ParseNumber);
        },
    };
    let sep = e < n && (s[e] == ',' || s[e] == '.');
    let f = if sep {
        e + 1
    } else {
        e
    };
    let end = skip_digits(s, f);
    let len = e - d;
    if len == width {
        Step::Done(v, end)
    } else if prefixed && !sep && 2 < len && len <= width {
        let k = width - len;
        let factor: u32 = if k == 1 {
            10
        } else if k == 2 {
            100
        } else if k == 3 {
            1000
        } else {
            10000
        };
        proof {
            reveal_with_fuel(pow10, 5);
            assert(factor as nat == pow10(k as nat));
            lemma_digits_below_pow10(s@.subrange(d as int, e as int));
            lemma_pow10_add(len as nat, k as nat);
            reveal_with_fuel(pow10, 8);
            assert(pow10(width as nat) <= 10000000);
            let a = pow10(len as nat);
            assert(v * factor < a * factor) by (nonlinear_arith)
                requires v < a, factor > 0;
        }
        Step::Done(v * factor, end)
    } else if sep && len <= width {
        make_fatal(p, t, end, ErrorKind::ParseCoordinate)
    } else {
        Step::Soft
    }
}

pub fn parse_northings(s: &Vec<char>, p: usize) -> (r: Step<u32>)
    requires
        p <= s@.len(),
    ensures
        r == spec_northings(s@, p as int),
{
    parse_coordinate(s, p, 'n', 'N', 7)
}

pub fn parse_eastings(s: &Vec<char>, p: usize) -> (r: Step<u32>)
    requires
        p <= s@.len(),
    ensures
        r == spec_eastings(s@, p as int),
{
    parse_coordinate(s, p, 'e', 'E', 6)
}


pub open spec fn tent_lower() -> Seq<char> {
    seq!['t', 'e', 'n', 't']
}

pub open spec fn tent_upper() -> Seq<char> {
    seq!['T', 'E', 'N', 'T']
}

pub open spec fn hut_lower() -> Seq<char> {
    seq!['h', 'u', 't']
}

pub open spec fn hut_upper() -> Seq<char> {
    seq!['H', 'U', 'T']
}

pub open spec fn food_lower() -> Seq<char> {
    seq!['f', 'o', 'o', 'd']
}

pub open spec fn food_upper() -> Seq<char> {
    seq!['F', 'O', 'O', 'D']
}

/// Whitespace and one of the words `tent`, `hut` or `food`, in any case.
pub open spec fn spec_action(s: Seq<char>, p: int) -> Step<Action> {
    let t = space_end(s, p);
    if t == p {
        Step::Soft
    } else if keyword_at(s, t, tent_lower(), tent_upper()) {
        Step::Done(Action::Tent, (t + 4) as usize)
    } else if keyword_at(s, t, hut_lower(), hut_upper()) {
        Step::Done(Action::Hut, (t + 3) as usize)
    } else if keyword_at(s, t, food_lower(), food_upper()) {
        Step::Done(Action::Food, (t + 4) as usize)
    } else {
        Step::Soft
    }
}

pub fn parse_action(s: &Vec<char>, p: usize) -> (r: Step<Action>)
    requires
        p <= s@.len(),
    ensures
        r == spec_action(s@, p as int),
{
    let t = skip_space(s, p);
    if t == p {
        return Step::Soft;
    }
    let tl = vec!['t', 'e', 'n', 't'];
    let tu = vec!['T', 'E', 'N', 'T'];
    let hl = vec!['h', 'u', 't'];
    let hu = vec!['H', 'U', 'T'];
    let fl = vec!['f', 'o', 'o', 'd'];
    let fu = vec!['F', 'O', 'O', 'D'];
    assert(tl@ == tent_lower() && tu@ == tent_upper());
    assert(hl@ == hut_lower() && hu@ == hut_upper());
    assert(fl@ == food_lower() && fu@ == food_upper());
    if match_keyword(s, t, &tl, &tu) {
        Step::Done(Action::Tent, t + 4)
    } else if match_keyword(s, t, &hl, &hu) {
        Step::Done(Action::Hut, t + 3)
    } else if match_keyword(s, t, &fl, &fu) {
        Step::Done(Action::Food, t + 4)
    } else {
        Step::Soft
    }
}

/// Where the body of a quoted message that starts at `i` stops: at the
/// closing quote, at the end of the input, or `-1` at a backslash that
/// escapes neither a quote nor a backslash.
pub open spec fn message_stop(s: Seq<char>, i: int) -> int
    decreases s.len() - i,
{
    if i < 0 || i >= s.len() {
        i
    } else if s[i] == '\\' {
        if i + 1 < s.len() && (s[i + 1] == '"' || s[i + 1] == '\\') {
            message_stop(s, i + 2)
        } else {
            -1
        }
    } else if s[i] == '"' {
        i
    } else {
        message_stop(s, i + 1)
    }
}

/// The text of a message body: each `\"` becomes `"`, from left to right;
/// nothing else changes.
pub open spec fn unescape(t: Seq<char>) -> Seq<char>
    decreases t.len(),
{
    if t.len() == 0 {
        t
    } else if t.len() >= 2 && t[0] == '\\' && t[1] == '"' {
        seq!['"'] + unescape(t.subrange(2, t.len() as int))
    } else {
        seq![t[0]] + unescape(t.drop_first())
    }
}

/// Whitespace and a double-quoted, non-empty body in which a backslash
/// escapes a quote or a backslash.
pub open spec fn spec_message(s: Seq<char>, p: int) -> Step<Seq<char>> {
    let t = space_end(s, p);
    let q = message_stop(s, t + 1);
    if t == p || !(t < s.len() && s[t] == '"') || q == t + 1 || !(0 <= q < s.len()) {
        Step::Soft
    } else {
        Step::Done(unescape(s.subrange(t + 1, q)), (q + 1) as usize)
    }
}

/// The same step with its text as a sequence of characters.
pub open spec fn text_step(r: Step<String>) -> Step<Seq<char>> {
    match r {
        Step::Done(v, q) => Step::Done(v@, q),
        Step::Soft => Step::Soft,
        Step::Hard(e) => Step::Hard(e),
    }
}

proof fn lemma_message_stop_bounds(s: Seq<char>, i: int)
    requires
        0 <= i <= s.len(),
    ensures
        message_stop(s, i) == -1 || i <= message_stop(s, i) <= s.len(),
    decreases s.len() - i,
{
    if i < s.len() {
        if s[i] == '\\' {
            if i + 1 < s.len() && (s[i + 1] == '"' || s[i + 1] == '\\') {
                lemma_message_stop_bounds(s, i + 2);
            }
        } else if s[i] != '"' {
            lemma_message_stop_bounds(s, i + 1);
        }
    }
}

fn find_message_stop(s: &Vec<char>, b: usize) -> (r: Option<usize>)
    requires
        b <= s@.len(),
    ensures
        match r {
            Some(q) => q as int == message_stop(s@, b as int) && b <= q <= s@.len(),
            None => message_stop(s@, b as int) == -1,
        },
{
    let n = s.len();
    let mut i: usize = b;
    proof {
        lemma_message_stop_bounds(s@, b as int);
    }
    while i < n
        invariant
            n == s@.len(),
            b <= i <= n,
            message_stop(s@, i as int) == message_stop(s@, b as int),
        decreases n - i,
    {
        if s[i] == '\\' {
            if i + 1 < n && (s[i + 1] == '"' || s[i + 1] == '\\') {
                i = i + 2;
            } else {
                return None;
            }
        } else if s[i] == '"' {
            return Some(i);
        } else {
            i = i + 1;
        }
    }
    Some(i)
}

/// Copies the body `[b, q)` of a message with each `\"` turned into `"`.
fn unescape_body(s: &Vec<char>, text: &str, b: usize, q: usize) -> (r: String)
    requires
        text@ == s@,
        b <= q <= s@.len(),
    ensures
        r@ == unescape(s@.subrange(b as int, q as int)),
{
    let mut out = String::new();
    let mut seg: usize = b;
    let mut i: usize = b;
    while i < q
        invariant
            text@ == s@,
            b <= seg <= i <= q <= s@.len(),
            out@ + s@.subrange(seg as int, i as int) + unescape(s@.subrange(i as int, q as int))
                == unescape(s@.subrange(b as int, q as int)),
        decreases q - i,
    {
        let ghost rest = s@.subrange(i as int, q as int);
        if s[i] == '\\' && i + 1 < q && s[i + 1] == '"' {
            let piece = text.substring_char(seg, i);
            out.append(piece);
            assert(rest.subrange(2, rest.len() as int) =~= s@.subrange(i + 2, q as int));
            assert(s@.subrange(i as int + 1, i as int + 2) =~= seq!['"']);
            assert(s@.subrange(seg as int, i as int) + seq![rest[0]] =~= s@.subrange(seg as int, i + 1));
            seg = i + 1;
            i = i + 2;
        } else {
            assert(rest.drop_first() =~= s@.subrange(i + 1, q as int));
            assert(s@.subrange(seg as int, i as int) + seq![rest[0]] =~= s@.subrange(seg as int, i + 1));
            i = i + 1;
        }
    }
    let piece = text.substring_char(seg, q);
    out.append(piece);
    assert(s@.subrange(q as int, q as int).len() == 0);
    out
}

pub fn parse_message(s: &Vec<char>, text: &str, p: usize) -> (r: Step<String>)
    requires
        p <= s@.len(),
        text@ == s@,
    ensures
        text_step(r) == spec_message(s@, p as int),
{
    let n = s.len();
    let t = skip_space(s, p);
    if t == p || !(t < n && s[t] == '"') {
        return Step::Soft;
    }
    match find_message_stop(s, t + 1) {
        None => Step::Soft,
        Some(q) => {
            if q == t + 1 || q == n {
                Step::Soft
            } else {
                let body = unescape_body(s, text, t + 1, q);
                Step::Done(body, q + 1)
            }
        },
    }
}


/// The year, month and day that a date field reads, with where it ends, or
/// the step that stopped it first.
pub open spec fn date_parts(s: Seq<char>, p: int) -> Result<(u32, u32, u32, int), Step<Date>> {
    let t = space_end(s, p);
    if t == p {
        Err(Step::Soft)
    } else {
        match spec_number(s, t, i32::MAX as nat, p) {
            Step::Soft => Err(Step::Soft),
            Step::Hard(e) => Err(Step::Hard(e)),
            Step::Done(y, e1) => if !(e1 < s.len() && s[e1 as int] == '-') {
                Err(Step::Soft)
            } else {
                match spec_number(s, e1 + 1, u32::MAX as nat, p) {
                    Step::Soft => Err(Step::Soft),
                    Step::Hard(e) => Err(Step::Hard(e)),
                    Step::Done(m, e2) => if !(e2 < s.len() && s[e2 as int] == '-') {
                        Err(Step::Soft)
                    } else {
                        match spec_number(s, e2 + 1, u32::MAX as nat, p) {
                            Step::Soft => Err(Step::Soft),
                            Step::Hard(e) => Err(Step::Hard(e)),
                            Step::Done(d, e3) => Ok((y, m, d, e3 as int)),
                        }
                    },
                }
            },
        }
    }
}

/// Whitespace and `year-month-day`. A date that does not exist is fatal
/// with `ParseDate`; one outside the years 1970 to 2029 with `DateOutOfRange`.
pub open spec fn spec_date(s: Seq<char>, p: int) -> Step<Date> {
    match date_parts(s, p) {
        Err(r) => r,
        Ok((y, m, d, e)) => {
            let t = space_end(s, p);
            if !is_calendar_date(y as int, m as int, d as int) {
                fatal(p, t, e, ErrorKind::ParseDate)
            } else if !(1970 <= y < 2030) {
                fatal(p, t, e, ErrorKind::DateOutOfRange)
            } else {
                Step::Done(Date { year: y as i32, month: m, day: d }, e as usize)
            }
        },
    }
}

pub fn parse_date(s: &Vec<char>, p: usize) -> (r: Step<Date>)
    requires
        p <= s@.len(),
    ensures
        r == spec_date(s@, p as int),
        r matches Step::Done(_, q) ==> p < q <= s@.len(),
{
    let n = s.len();
    proof {
        lemma_date_advances(s@, p as int);
    }
    let t = skip_space(s, p);
    if t == p {
        return Step::Soft;
    }
    proof {
        lemma_digits_end_bounds(s@, t as int);
    }
    let (y, e1) = match parse_number(s, t, 0x7fff_ffff, p) {
        Step::Done(y, e1) => (y, e1),
        Step::Soft => return Step::Soft,
        Step::Hard(e) => return Step::Hard(e),
    };
    if !(e1 < n && s[e1] == '-') {
        return Step::Soft;
    }
    proof {
        lemma_digits_end_bounds(s@, e1 + 1);
    }
    let (m, e2) = match parse_number(s, e1 + 1, u32::MAX, p) {
        Step::Done(m, e2) => (m, e2),
        Step::Soft => return Step::Soft,
        Step::Hard(e) => return Step::Hard(e),
    };
    if !(e2 < n && s[e2] == '-') {
        return Step::Soft;
    }
    proof {
        lemma_digits_end_bounds(s@, e2 + 1);
    }
    let (d, e3) = match parse_number(s, e2 + 1, u32::MAX, p) {
        Step::Done(d, e3) => (d, e3),
        Step::Soft => return Step::Soft,
        Step::Hard(e) => return Step::Hard(e),
    };
    let year = y as i32;
    if !calendar_date_exists(year, m, d) {
        make_fatal(p, t, e3, ErrorKind::ParseDate)
    } else if !(1970 <= year && year < 2030) {
        make_fatal(p, t, e3, ErrorKind::DateOutOfRange)
    } else {
        Step::Done(Date { year, month: m, day: d }, e3)
    }
}

/// Whitespace and `hour:minute`, optionally followed by `:second`; seconds
/// default to 0. A time outside the 24-hour clock is fatal with `ParseTime`.
pub open spec fn spec_time(s: Seq<char>, p: int) -> Step<Time> {
    let t = space_end(s, p);
    if t == p {
        Step::Soft
    } else {
        match spec_number(s, t, u32::MAX as nat, p) {
            Step::Soft => Step::Soft,
            Step::Hard(e) => Step::Hard(e),
            Step::Done(h, e1) => if !(e1 < s.len() && s[e1 as int] == ':') {
                Step::Soft
            } else {
                match spec_number(s, e1 + 1, u32::MAX as nat, p) {
                    Step::Soft => Step::Soft,
                    Step::Hard(e) => Step::Hard(e),
                    Step::Done(m, e2) => {
                        let sec = if e2 < s.len() && s[e2 as int] == ':' {
                            spec_number(s, e2 + 1, u32::MAX as nat, p)
                        } else {
                            Step::Soft
                        };
                        match sec {
                            Step::Hard(e) => Step::Hard(e),
                            _ => {
                                let (sv, e3) = match sec {
                                    Step::Done(v, e3) => (v, e3),
                                    _ => (0u32, e2),
                                };
                                if is_clock_time(h as int, m as int, sv as int) {
                                    Step::Done(Time { hour: h, minute: m, second: sv }, e3)
                                } else {
                                    fatal(p, t, e3 as int, ErrorKind::ParseTime)
                                }
                            },
                        }
                    },
                }
            },
        }
    }
}

pub fn parse_time(s: &Vec<char>, p: usize) -> (r: Step<Time>)
    requires
        p <= s@.len(),
    ensures
        r == spec_time(s@, p as int),
{
    let n = s.len();
    let t = skip_space(s, p);
    if t == p {
        return Step::Soft;
    }
    proof {
        lemma_digits_end_bounds(s@, t as int);
    }
    let (h, e1) = match parse_number(s, t, u32::MAX, p) {
        Step::Done(h, e1) => (h, e1),
        Step::Soft => return Step::Soft,
        Step::Hard(e) => return Step::Hard(e),
    };
    if !(e1 < n && s[e1] == ':') {
        return Step::Soft;
    }
    proof {
        lemma_digits_end_bounds(s@, e1 + 1);
    }
    let (m, e2) = match parse_number(s, e1 + 1, u32::MAX, p) {
        Step::Done(m, e2) => (m, e2),
        Step::Soft => return Step::Soft,
        Step::Hard(e) => return Step::Hard(e),
    };
    let sec = if e2 < n && s[e2] == ':' {
        parse_number(s, e2 + 1, u32::MAX, p)
    } else {
        Step::Soft
    };
    let (sv, e3) = match sec {
        Step::Done(v, e3) => (v, e3),
        Step::Soft => (0u32, e2),
        Step::Hard(e) => return Step::Hard(e),
    };
    if clock_time_exists(h, m, sv) {
        Step::Done(Time { hour: h, minute: m, second: sv }, e3)
    } else {
        make_fatal(p, t, e3, ErrorKind::ParseTime)
    }
}

/// A date and a time, either of them, or neither.
pub type TimeGroup = (Option<Date>, Option<Time>);

/// A date immediately followed by a time, else a date alone, else a time alone.
pub open spec fn spec_time_group(s: Seq<char>, p: int) -> Step<TimeGroup> {
    match spec_date(s, p) {
        Step::Hard(e) => Step::Hard(e),
        Step::Done(d, e) => match spec_time(s, e as int) {
            Step::Done(tm, q) => Step::Done((Some(d), Some(tm)), q),
            Step::Soft => Step::Done((Some(d), None), e),
            Step::Hard(err) => Step::Hard(err),
        },
        Step::Soft => match spec_time(s, p) {
            Step::Done(tm, q) => Step::Done((None, Some(tm)), q),
            Step::Soft => Step::Soft,
            Step::Hard(err) => Step::Hard(err),
        },
    }
}

proof fn lemma_date_advances(s: Seq<char>, p: int)
    requires
        0 <= p <= s.len() <= usize::MAX,
    ensures
        spec_date(s, p) matches Step::Done(_, q) ==> p < q <= s.len(),
{
    let t = space_end(s, p);
    lemma_space_end_bounds(s, p);
    lemma_digits_end_bounds(s, t);
    if let Step::Done(_, e1) = spec_number(s, t, i32::MAX as nat, p) {
        if e1 < s.len() {
            lemma_digits_end_bounds(s, e1 + 1);
            if let Step::Done(_, e2) = spec_number(s, e1 + 1, u32::MAX as nat, p) {
                if e2 < s.len() {
                    lemma_digits_end_bounds(s, e2 + 1);
                }
            }
        }
    }
}

pub fn parse_time_group(s: &Vec<char>, p: usize) -> (r: Step<TimeGroup>)
    requires
        p <= s@.len(),
    ensures
        r == spec_time_group(s@, p as int),
{
    match parse_date(s, p) {
        Step::Hard(e) => Step::Hard(e),
        Step::Done(d, e) => match parse_time(s, e) {
            Step::Done(tm, q) => Step::Done((Some(d), Some(tm)), q),
            Step::Soft => Step::Done((Some(d), None), e),
            Step::Hard(err) => Step::Hard(err),
        },
        Step::Soft => match parse_time(s, p) {
            Step::Done(tm, q) => Step::Done((None, Some(tm)), q),
            Step::Soft => Step::Soft,
            Step::Hard(err) => Step::Hard(err),
        },
    }
}


proof fn lemma_coordinate_advances(s: Seq<char>, p: int, lower: char, upper: char, width: nat)
    requires
        0 <= p <= s.len() <= usize::MAX,
    ensures
        spec_coordinate(s, p, lower, upper, width) matches Step::Done(_, q) ==> p < q <= s.len(),
{
    let t = space_end(s, p);
    lemma_space_end_bounds(s, p);
    let d = if t < s.len() && (s[t] == lower || s[t] == upper) {
        t + 1
    } else {
        t
    };
    lemma_digits_end_bounds(s, d);
    let e = digits_end(s, d);
    if e < s.len() {
        lemma_digits_end_bounds(s, e + 1);
    }
    lemma_digits_end_bounds(s, e);
}

proof fn lemma_time_advances(s: Seq<char>, p: int)
    requires
        0 <= p <= s.len() <= usize::MAX,
    ensures
        spec_time(s, p) matches Step::Done(_, q) ==> p < q <= s.len(),
{
    let t = space_end(s, p);
    lemma_space_end_bounds(s, p);
    lemma_digits_end_bounds(s, t);
    if let Step::Done(_, e1) = spec_number(s, t, u32::MAX as nat, p) {
        if e1 < s.len() {
            lemma_digits_end_bounds(s, e1 + 1);
            if let Step::Done(_, e2) = spec_number(s, e1 + 1, u32::MAX as nat, p) {
                if e2 < s.len() {
                    lemma_digits_end_bounds(s, e2 + 1);
                }
            }
        }
    }
}

/// Every field that is found ends after where its parser began, within the
/// input.
pub proof fn lemma_fields_advance(s: Seq<char>, p: int)
    requires
        0 <= p <= s.len() <= usize::MAX,
    ensures
        spec_projection(s, p) matches Step::Done(_, q) ==> p < q <= s.len(),
        spec_northings(s, p) matches Step::Done(_, q) ==> p < q <= s.len(),
        spec_eastings(s, p) matches Step::Done(_, q) ==> p < q <= s.len(),
        spec_action(s, p) matches Step::Done(_, q) ==> p < q <= s.len(),
        spec_message(s, p) matches Step::Done(_, q) ==> p < q <= s.len(),
        spec_time_group(s, p) matches Step::Done(_, q) ==> p < q <= s.len(),
{
    let t = space_end(s, p);
    lemma_space_end_bounds(s, p);
    if keyword_at(s, t, utm_lower(), utm_upper()) {
        lemma_digits_end_bounds(s, t + 3);
    } else {
        lemma_digits_end_bounds(s, t);
    }
    lemma_coordinate_advances(s, p, 'n', 'N', 7);
    lemma_coordinate_advances(s, p, 'e', 'E', 6);
    if t + 1 <= s.len() {
        lemma_message_stop_bounds(s, t + 1);
    }
    lemma_date_advances(s, p);
    lemma_time_advances(s, p);
    if let Step::Done(_, e) = spec_date(s, p) {
        lemma_time_advances(s, e as int);
    }
}

} // verus!
