//! Points and commands, and the entry point `Command::parse`.
use vstd::prelude::*;

use crate::command::{
    points_view, text_view, Action, Command, CommandView, Point, PointView, Position, Projection,
};
use crate::error::{ErrorKind, ParseError, Span};
use crate::offsets::{byte_offset, byte_offsets};
use crate::lexer::{keyword_at, match_keyword, skip_space, space_end};
use crate::fields::{
    lemma_fields_advance, parse_action, parse_eastings, parse_message, parse_northings,
    parse_projection, parse_time_group, spec_action, spec_eastings, spec_message, spec_northings,
    spec_projection, spec_time_group, TimeGroup,
};
use crate::step::Step;

verus! {

broadcast use vstd::string::group_string_axioms;

/// The characters of `text`, in order.
pub fn chars_of(text: &str) -> (r: Vec<char>)
    ensures
        r@ == text@,
{
    let mut v: Vec<char> = Vec::new();
    for c in it: text.chars()
        invariant
            it.seq() == text@,
            v@ == it.seq().subrange(0, it.index() as int),
    {
        v.push(c);
    }
    v
}


pub open spec fn pending<T>(x: Option<T>) -> int {
    if x is None {
        1
    } else {
        0
    }
}

/// The position fields in any order: in each round the first missing field,
/// in the order projection, northings, eastings, that is found at the current
/// place is taken, and the round begins again; a fatal failure ends all.
pub open spec fn position_rounds(
    s: Seq<char>,
    p: int,
    proj: Option<Projection>,
    north: Option<u32>,
    east: Option<u32>,
) -> Step<Position>
    decreases pending(proj) + pending(north) + pending(east),
{
    let a = if proj is None {
        spec_projection(s, p)
    } else {
        Step::Soft
    };
    let b = if north is None {
        spec_northings(s, p)
    } else {
        Step::Soft
    };
    let c = if east is None {
        spec_eastings(s, p)
    } else {
        Step::Soft
    };
    if let Step::Done(v, q) = a {
        position_rounds(s, q as int, Some(v), north, east)
    } else if let Step::Hard(e) = a {
        Step::Hard(e)
    } else if let Step::Done(v, q) = b {
        position_rounds(s, q as int, proj, Some(v), east)
    } else if let Step::Hard(e) = b {
        Step::Hard(e)
    } else if let Step::Done(v, q) = c {
        position_rounds(s, q as int, proj, north, Some(v))
    } else if let Step::Hard(e) = c {
        Step::Hard(e)
    } else if let (Some(z), Some(n), Some(e)) = (proj, north, east) {
        Step::Done(Position { projection: z, eastings: e, northings: n }, p as usize)
    } else {
        Step::Soft
    }
}

/// A projection, a northing and an easting, in any order.
pub open spec fn spec_position(s: Seq<char>, p: int) -> Step<Position> {
    position_rounds(s, p, None, None, None)
}

pub fn parse_position(s: &Vec<char>, p: usize) -> (r: Step<Position>)
    requires
        p <= s@.len(),
    ensures
        r == spec_position(s@, p as int),
{
    let n = s.len();
    let mut proj: Option<Projection> = None;
    let mut north: Option<u32> = None;
    let mut east: Option<u32> = None;
    let mut at: usize = p;
    loop
        invariant
            n == s@.len(),
            at <= n,
            position_rounds(s@, at as int, proj, north, east) == spec_position(s@, p as int),
        decreases pending(proj) + pending(north) + pending(east),
    {
        proof {
            lemma_fields_advance(s@, at as int);
        }
        if proj.is_none() {
            match parse_projection(s, at) {
                Step::Done(v, q) => {
                    proj = Some(v);
                    at = q;
                    continue ;
                },
                Step::Hard(e) => return Step::Hard(e),
                Step::Soft => {},
            }
        }
        if north.is_none() {
            match parse_northings(s, at) {
                Step::Done(v, q) => {
                    north = Some(v);
                    at = q;
                    continue ;
                },
                Step::Hard(e) => return Step::Hard(e),
                Step::Soft => {},
            }
        }
        if east.is_none() {
            match parse_eastings(s, at) {
                Step::Done(v, q) => {
                    east = Some(v);
                    at = q;
                    continue ;
                },
                Step::Hard(e) => return Step::Hard(e),
                Step::Soft => {},
            }
        }
        return match (proj, north, east) {
            (Some(z), Some(n), Some(e)) => Step::Done(
                Position { projection: z, eastings: e, northings: n },
                at,
            ),
            _ => Step::Soft,
        };
    }
}


proof fn lemma_position_rounds_advance(
    s: Seq<char>,
    p: int,
    proj: Option<Projection>,
    north: Option<u32>,
    east: Option<u32>,
)
    requires
        0 <= p <= s.len() <= usize::MAX,
    ensures
        position_rounds(s, p, proj, north, east) matches Step::Done(_, q) ==> p <= q <= s.len()
            && (pending(proj) + pending(north) + pending(east) > 0 ==> p < q),
    decreases pending(proj) + pending(north) + pending(east),
{
    lemma_fields_advance(s, p);
    if proj is None {
        if let Step::Done(v, q) = spec_projection(s, p) {
            lemma_position_rounds_advance(s, q as int, Some(v), north, east);
            return ;
        }
    }
    if north is None {
        if let Step::Done(v, q) = spec_northings(s, p) {
            lemma_position_rounds_advance(s, q as int, proj, Some(v), east);
            return ;
        }
    }
    if east is None {
        if let Step::Done(v, q) = spec_eastings(s, p) {
            lemma_position_rounds_advance(s, q as int, proj, north, Some(v));
            return ;
        }
    }
}

/// The first step of the two that is not a mismatch.
pub open spec fn first_of<T>(a: Step<T>, b: Step<T>) -> Step<T> {
    if a is Soft {
        b
    } else {
        a
    }
}

pub open spec fn wanted<T>(w: bool, x: Option<T>) -> int {
    if w && x is None {
        1
    } else {
        0
    }
}

pub open spec fn group_date(g: Option<TimeGroup>) -> Option<crate::command::Date> {
    match g {
        Some((d, _)) => d,
        None => None,
    }
}

pub open spec fn group_time(g: Option<TimeGroup>) -> Option<crate::command::Time> {
    match g {
        Some((_, t)) => t,
        None => None,
    }
}

/// A position and exactly the optional fields that `wa` (action), `wm`
/// (message) and `wt` (date and time) ask for, in any order, taken round by
/// round as for a position, in the order position, action, message, time.
pub open spec fn point_rounds(
    s: Seq<char>,
    p: int,
    wa: bool,
    wm: bool,
    wt: bool,
    pos: Option<Position>,
    act: Option<Action>,
    msg: Option<Seq<char>>,
    tg: Option<TimeGroup>,
) -> Step<PointView>
    decreases pending(pos) + wanted(wa, act) + wanted(wm, msg) + wanted(wt, tg),
{
    let a = if pos is None {
        spec_position(s, p)
    } else {
        Step::Soft
    };
    let b = if wa && act is None {
        spec_action(s, p)
    } else {
        Step::Soft
    };
    let c = if wm && msg is None {
        spec_message(s, p)
    } else {
        Step::Soft
    };
    let d = if wt && tg is None {
        spec_time_group(s, p)
    } else {
        Step::Soft
    };
    if let Step::Done(v, q) = a {
        point_rounds(s, q as int, wa, wm, wt, Some(v), act, msg, tg)
    } else if let Step::Hard(e) = a {
        Step::Hard(e)
    } else if let Step::Done(v, q) = b {
        point_rounds(s, q as int, wa, wm, wt, pos, Some(v), msg, tg)
    } else if let Step::Hard(e) = b {
        Step::Hard(e)
    } else if let Step::Done(v, q) = c {
        point_rounds(s, q as int, wa, wm, wt, pos, act, Some(v), tg)
    } else if let Step::Hard(e) = c {
        Step::Hard(e)
    } else if let Step::Done(v, q) = d {
        point_rounds(s, q as int, wa, wm, wt, pos, act, msg, Some(v))
    } else if let Step::Hard(e) = d {
        Step::Hard(e)
    } else if pos is Some && wanted(wa, act) == 0 && wanted(wm, msg) == 0 && wanted(wt, tg) == 0 {
        Step::Done(
            PointView {
                position: pos->0,
                action: act,
                message: msg,
                date: group_date(tg),
                time: group_time(tg),
            },
            p as usize,
        )
    } else {
        Step::Soft
    }
}

pub open spec fn point_with(s: Seq<char>, p: int, wa: bool, wm: bool, wt: bool) -> Step<PointView> {
    point_rounds(s, p, wa, wm, wt, None, None, None, None)
}

/// A point: the first combination of optional fields that matches, from all
/// three down to none.
pub open spec fn spec_point(s: Seq<char>, p: int) -> Step<PointView> {
    first_of(
        point_with(s, p, true, true, true),
        first_of(
            point_with(s, p, true, true, false),
            first_of(
                point_with(s, p, true, false, true),
                first_of(
                    point_with(s, p, false, true, true),
                    first_of(
                        point_with(s, p, true, false, false),
                        first_of(
                            point_with(s, p, false, true, false),
                            first_of(
                                point_with(s, p, false, false, true),
                                point_with(s, p, false, false, false),
                            ),
                        ),
                    ),
                ),
            ),
        ),
    )
}

/// The same step with its point as a `PointView`.
pub open spec fn point_step(r: Step<Point>) -> Step<PointView> {
    match r {
        Step::Done(v, q) => Step::Done(v@, q),
        Step::Soft => Step::Soft,
        Step::Hard(e) => Step::Hard(e),
    }
}

fn parse_point_with(s: &Vec<char>, text: &str, p: usize, wa: bool, wm: bool, wt: bool) -> (r: Step<
    Point,
>)
    requires
        p <= s@.len(),
        text@ == s@,
    ensures
        point_step(r) == point_with(s@, p as int, wa, wm, wt),
        r matches Step::Done(_, q) ==> q <= s@.len(),
{
    let n = s.len();
    let mut pos: Option<Position> = None;
    let mut act: Option<Action> = None;
    let mut msg: Option<String> = None;
    let mut tg: Option<TimeGroup> = None;
    let mut at: usize = p;
    loop
        invariant
            n == s@.len(),
            text@ == s@,
            at <= n,
            point_rounds(s@, at as int, wa, wm, wt, pos, act, text_view(msg), tg) == point_with(
                s@,
                p as int,
                wa,
                wm,
                wt,
            ),
        decreases pending(pos) + wanted(wa, act) + wanted(wm, text_view(msg)) + wanted(wt, tg),
    {
        proof {
            lemma_fields_advance(s@, at as int);
            lemma_position_rounds_advance(s@, at as int, None, None, None);
        }
        if pos.is_none() {
            match parse_position(s, at) {
                Step::Done(v, q) => {
                    pos = Some(v);
                    at = q;
                    continue ;
                },
                Step::Hard(e) => return Step::Hard(e),
                Step::Soft => {},
            }
        }
        if wa && act.is_none() {
            match parse_action(s, at) {
                Step::Done(v, q) => {
                    act = Some(v);
                    at = q;
                    continue ;
                },
                Step::Hard(e) => return Step::Hard(e),
                Step::Soft => {},
            }
        }
        if wm && msg.is_none() {
            match parse_message(s, text, at) {
                Step::Done(v, q) => {
                    msg = Some(v);
                    at = q;
                    continue ;
                },
                Step::Hard(e) => return Step::Hard(e),
                Step::Soft => {},
            }
        }
        if wt && tg.is_none() {
            match parse_time_group(s, at) {
                Step::Done(v, q) => {
                    tg = Some(v);
                    at = q;
                    continue ;
                },
                Step::Hard(e) => return Step::Hard(e),
                Step::Soft => {},
            }
        }
        let complete = (!wa || act.is_some()) && (!wm || msg.is_some()) && (!wt || tg.is_some());
        match pos {
            Some(position) => {
                if complete {
                    let (date, time) = match tg {
                        Some((d, t)) => (d, t),
                        None => (None, None),
                    };
                    return Step::Done(Point { position, action: act, message: msg, date, time }, at);
                }
                return Step::Soft;
            },
            None => return Step::Soft,
        }
    }
}

pub fn parse_point(s: &Vec<char>, text: &str, p: usize) -> (r: Step<Point>)
    requires
        p <= s@.len(),
        text@ == s@,
    ensures
        point_step(r) == spec_point(s@, p as int),
        r matches Step::Done(_, q) ==> q <= s@.len(),
{
    let r = parse_point_with(s, text, p, true, true, true);
    if !matches!(r, Step::Soft) {
        return r;
    }
    let r = parse_point_with(s, text, p, true, true, false);
    if !matches!(r, Step::Soft) {
        return r;
    }
    let r = parse_point_with(s, text, p, true, false, true);
    if !matches!(r, Step::Soft) {
        return r;
    }
    let r = parse_point_with(s, text, p, false, true, true);
    if !matches!(r, Step::Soft) {
        return r;
    }
    let r = parse_point_with(s, text, p, true, false, false);
    if !matches!(r, Step::Soft) {
        return r;
    }
    let r = parse_point_with(s, text, p, false, true, false);
    if !matches!(r, Step::Soft) {
        return r;
    }
    let r = parse_point_with(s, text, p, false, false, true);
    if !matches!(r, Step::Soft) {
        return r;
    }
    parse_point_with(s, text, p, false, false, false)
}


/// `rest` with the points `a` put in front of what it found.
pub open spec fn prefixed(a: Seq<PointView>, rest: Step<Seq<PointView>>) -> Step<Seq<PointView>> {
    match rest {
        Step::Done(ps, q) => Step::Done(a + ps, q),
        Step::Soft => Step::Soft,
        Step::Hard(e) => Step::Hard(e),
    }
}

/// Points one after another for as long as one is found. A point that
/// consumed nothing would be a mismatch of the whole run.
pub open spec fn points_from(s: Seq<char>, p: int) -> Step<Seq<PointView>>
    decreases s.len() - p,
{
    match spec_point(s, p) {
        Step::Soft => Step::Done(Seq::empty(), p as usize),
        Step::Hard(e) => Step::Hard(e),
        Step::Done(pt, q) => if !(p < q <= s.len()) {
            Step::Soft
        } else {
            prefixed(seq![pt], points_from(s, q as int))
        },
    }
}

/// One or more points.
pub open spec fn spec_points(s: Seq<char>, p: int) -> Step<Seq<PointView>> {
    match points_from(s, p) {
        Step::Done(ps, q) => if ps.len() == 0 {
            Step::Soft
        } else {
            Step::Done(ps, q)
        },
        other => other,
    }
}

pub open spec fn points_step(r: Step<Vec<Point>>) -> Step<Seq<PointView>> {
    match r {
        Step::Done(v, q) => Step::Done(points_view(v@), q),
        Step::Soft => Step::Soft,
        Step::Hard(e) => Step::Hard(e),
    }
}

fn parse_points(s: &Vec<char>, text: &str, p: usize) -> (r: Step<Vec<Point>>)
    requires
        p <= s@.len(),
        text@ == s@,
    ensures
        points_step(r) == spec_points(s@, p as int),
        r matches Step::Done(_, q) ==> q <= s@.len(),
{
    let n = s.len();
    let mut acc: Vec<Point> = Vec::new();
    let mut at: usize = p;
    assert(points_view(acc@) =~= Seq::<PointView>::empty());
    assert forall|st: Step<Seq<PointView>>| prefixed(Seq::empty(), st) == st by {
        if let Step::Done(ps, q) = st {
            assert(Seq::<PointView>::empty() + ps =~= ps);
        }
    }
    loop
        invariant
            n == s@.len(),
            text@ == s@,
            p <= at <= n,
            at == p <==> acc@.len() == 0,
            prefixed(points_view(acc@), points_from(s@, at as int)) == points_from(s@, p as int),
        decreases n - at,
    {
        match parse_point(s, text, at) {
            Step::Soft => {
                assert(points_from(s@, at as int) == Step::Done(Seq::<PointView>::empty(), at));
                assert(points_view(acc@) + Seq::<PointView>::empty() =~= points_view(acc@));
                if acc.len() == 0 {
                    return Step::Soft;
                }
                return Step::Done(acc, at);
            },
            Step::Hard(e) => return Step::Hard(e),
            Step::Done(pt, q) => {
                if !(at < q && q <= n) {
                    return Step::Soft;
                }
                let ghost before = points_view(acc@);
                let ghost v = pt@;
                acc.push(pt);
                assert(points_view(acc@) =~= before.push(v));
                assert forall|st: Step<Seq<PointView>>|
                    prefixed(before, prefixed(seq![v], st)) == prefixed(before.push(v), st) by {
                    if let Step::Done(ps, q2) = st {
                        assert(before + (seq![v] + ps) =~= before.push(v) + ps);
                    }
                }
                at = q;
            },
        }
    }
}

pub open spec fn create_lower() -> Seq<char> {
    seq!['c', 'r', 'e', 'a', 't', 'e']
}

pub open spec fn create_upper() -> Seq<char> {
    seq!['C', 'R', 'E', 'A', 'T', 'E']
}

pub open spec fn edit_lower() -> Seq<char> {
    seq!['e', 'd', 'i', 't']
}

pub open spec fn edit_upper() -> Seq<char> {
    seq!['E', 'D', 'I', 'T']
}

pub open spec fn checkin_lower() -> Seq<char> {
    seq!['c', 'h', 'e', 'c', 'k', 'i', 'n']
}

pub open spec fn checkin_upper() -> Seq<char> {
    seq!['C', 'H', 'E', 'C', 'K', 'I', 'N']
}

pub open spec fn complete_lower() -> Seq<char> {
    seq!['c', 'o', 'm', 'p', 'l', 'e', 't', 'e']
}

pub open spec fn complete_upper() -> Seq<char> {
    seq!['C', 'O', 'M', 'P', 'L', 'E', 'T', 'E']
}

/// `create` and one or more points.
pub open spec fn spec_create(s: Seq<char>) -> Step<CommandView> {
    if !keyword_at(s, 0, create_lower(), create_upper()) {
        Step::Soft
    } else {
        match spec_points(s, 6) {
            Step::Done(ps, q) => Step::Done(CommandView::Create(ps), q),
            Step::Soft => Step::Soft,
            Step::Hard(e) => Step::Hard(e),
        }
    }
}

/// `edit` and one or more points.
pub open spec fn spec_edit(s: Seq<char>) -> Step<CommandView> {
    if !keyword_at(s, 0, edit_lower(), edit_upper()) {
        Step::Soft
    } else {
        match spec_points(s, 4) {
            Step::Done(ps, q) => Step::Done(CommandView::Edit(ps), q),
            Step::Soft => Step::Soft,
            Step::Hard(e) => Step::Hard(e),
        }
    }
}

/// `checkin` and exactly one point.
pub open spec fn spec_checkin(s: Seq<char>) -> Step<CommandView> {
    if !keyword_at(s, 0, checkin_lower(), checkin_upper()) {
        Step::Soft
    } else {
        match spec_point(s, 7) {
            Step::Done(pt, q) => Step::Done(CommandView::Checkin(pt), q),
            Step::Soft => Step::Soft,
            Step::Hard(e) => Step::Hard(e),
        }
    }
}

/// `complete` alone.
pub open spec fn spec_complete(s: Seq<char>) -> Step<CommandView> {
    if !keyword_at(s, 0, complete_lower(), complete_upper()) {
        Step::Soft
    } else {
        Step::Done(CommandView::Complete, 8)
    }
}

/// The first command form that matches at the start of the input, followed by
/// any whitespace.
pub open spec fn spec_command(s: Seq<char>) -> Step<CommandView> {
    match first_of(spec_create(s), first_of(spec_edit(s), first_of(spec_checkin(s), spec_complete(s)))) {
        Step::Done(c, q) => Step::Done(c, space_end(s, q as int) as usize),
        other => other,
    }
}

/// An error found at character positions, placed at byte offsets of the
/// UTF-8 text.
pub open spec fn located(s: Seq<char>, e: ParseError) -> ParseError {
    ParseError {
        input: byte_offset(s, e.input as int) as usize,
        span: match e.span {
            Some(sp) => Some(
                Span {
                    start: byte_offset(s, sp.start as int) as usize,
                    end: byte_offset(s, sp.end as int) as usize,
                },
            ),
            None => None,
        },
        error: e.error,
    }
}

/// The result of parsing a whole message: a command that, with trailing
/// whitespace, takes up all of it; `NotRecognised` at the first character left
/// over; the fatal failure met; or `NotRecognised` at the start where nothing
/// matched. Error positions are byte offsets.
pub open spec fn spec_parse(s: Seq<char>) -> Result<CommandView, ParseError> {
    match spec_command(s) {
        Step::Done(c, q) => if q == s.len() {
            Ok(c)
        } else {
            Err(
                located(
                    s,
                    ParseError {
                        input: q,
                        span: Some(Span { start: q, end: s.len() as usize }),
                        error: ErrorKind::NotRecognised,
                    },
                ),
            )
        },
        Step::Hard(e) => Err(located(s, e)),
        Step::Soft => Err(
            located(s, ParseError { input: 0, span: None, error: ErrorKind::NotRecognised }),
        ),
    }
}

fn offset_at(offsets: &Vec<usize>, s: &Vec<char>, i: usize) -> (r: usize)
    requires
        offsets@.len() == s@.len() + 1,
        forall|j: int| 0 <= j <= s@.len() ==> offsets@[j] == byte_offset(s@, j),
    ensures
        r == byte_offset(s@, i as int),
{
    let n = s.len();
    if i < n {
        offsets[i]
    } else {
        assert(byte_offset(s@, i as int) == byte_offset(s@, n as int));
        offsets[n]
    }
}

/// Places an error found at character positions at byte offsets.
fn locate(text: &str, s: &Vec<char>, e: ParseError) -> (r: ParseError)
    requires
        text@ == s@,
    ensures
        r == located(s@, e),
{
    let offsets = byte_offsets(text, s);
    let span = match e.span {
        Some(sp) => Some(
            Span { start: offset_at(&offsets, s, sp.start), end: offset_at(&offsets, s, sp.end) },
        ),
        None => None,
    };
    ParseError::new(offset_at(&offsets, s, e.input), span, e.error)
}

pub open spec fn command_step(r: Step<Command>) -> Step<CommandView> {
    match r {
        Step::Done(c, q) => Step::Done(c@, q),
        Step::Soft => Step::Soft,
        Step::Hard(e) => Step::Hard(e),
    }
}

fn parse_create(s: &Vec<char>, text: &str) -> (r: Step<Command>)
    requires
        text@ == s@,
    ensures
        command_step(r) == spec_create(s@),
        r matches Step::Done(_, q) ==> q <= s@.len(),
{
    let lower = vec!['c', 'r', 'e', 'a', 't', 'e'];
    let upper = vec!['C', 'R', 'E', 'A', 'T', 'E'];
    assert(lower@ == create_lower() && upper@ == create_upper());
    if !match_keyword(s, 0, &lower, &upper) {
        return Step::Soft;
    }
    match parse_points(s, text, 6) {
        Step::Done(ps, q) => Step::Done(Command::Create(ps), q),
        Step::Soft => Step::Soft,
        Step::Hard(e) => Step::Hard(e),
    }
}

fn parse_edit(s: &Vec<char>, text: &str) -> (r: Step<Command>)
    requires
        text@ == s@,
    ensures
        command_step(r) == spec_edit(s@),
        r matches Step::Done(_, q) ==> q <= s@.len(),
{
    let lower = vec!['e', 'd', 'i', 't'];
    let upper = vec!['E', 'D', 'I', 'T'];
    assert(lower@ == edit_lower() && upper@ == edit_upper());
    if !match_keyword(s, 0, &lower, &upper) {
        return Step::Soft;
    }
    match parse_points(s, text, 4) {
        Step::Done(ps, q) => Step::Done(Command::Edit(ps), q),
        Step::Soft => Step::Soft,
        Step::Hard(e) => Step::Hard(e),
    }
}

fn parse_checkin(s: &Vec<char>, text: &str) -> (r: Step<Command>)
    requires
        text@ == s@,
    ensures
        command_step(r) == spec_checkin(s@),
        r matches Step::Done(_, q) ==> q <= s@.len(),
{
    let lower = vec!['c', 'h', 'e', 'c', 'k', 'i', 'n'];
    let upper = vec!['C', 'H', 'E', 'C', 'K', 'I', 'N'];
    assert(lower@ == checkin_lower() && upper@ == checkin_upper());
    if !match_keyword(s, 0, &lower, &upper) {
        return Step::Soft;
    }
    match parse_point(s, text, 7) {
        Step::Done(pt, q) => Step::Done(Command::Checkin(pt), q),
        Step::Soft => Step::Soft,
        Step::Hard(e) => Step::Hard(e),
    }
}

fn parse_complete(s: &Vec<char>) -> (r: Step<Command>)
    ensures
        command_step(r) == spec_complete(s@),
        r matches Step::Done(_, q) ==> q <= s@.len(),
{
    let lower = vec!['c', 'o', 'm', 'p', 'l', 'e', 't', 'e'];
    let upper = vec!['C', 'O', 'M', 'P', 'L', 'E', 'T', 'E'];
    assert(lower@ == complete_lower() && upper@ == complete_upper());
    if match_keyword(s, 0, &lower, &upper) {
        Step::Done(Command::Complete, 8)
    } else {
        Step::Soft
    }
}

fn parse_command(s: &Vec<char>, text: &str) -> (r: Step<Command>)
    requires
        text@ == s@,
    ensures
        command_step(r) == spec_command(s@),
        r matches Step::Done(_, q) ==> q <= s@.len(),
{
    let mut found = parse_create(s, text);
    if matches!(found, Step::Soft) {
        found = parse_edit(s, text);
    }
    if matches!(found, Step::Soft) {
        found = parse_checkin(s, text);
    }
    if matches!(found, Step::Soft) {
        found = parse_complete(s);
    }
    match found {
        Step::Done(c, q) => Step::Done(c, skip_space(s, q)),
        Step::Soft => Step::Soft,
        Step::Hard(e) => Step::Hard(e),
    }
}

impl Command {
    /// Parses a whole message into a command.
    pub fn parse(input: &str) -> (r: Result<Command, ParseError>)
        ensures
            match r {
                Ok(c) => spec_parse(input@) == Ok::<CommandView, ParseError>(c@),
                Err(e) => spec_parse(input@) == Err::<CommandView, ParseError>(e),
            },
    {
        let s = chars_of(input);
        let n = s.len();
        match parse_command(&s, input) {
            Step::Done(c, q) => {
                if q == n {
                    Ok(c)
                } else {
                    let e = ParseError::new(q, Some(Span { start: q, end: n }), ErrorKind::NotRecognised);
                    Err(locate(input, &s, e))
                }
            },
            Step::Hard(e) => Err(locate(input, &s, e)),
            Step::Soft => Err(locate(input, &s, ParseError::new(0, None, ErrorKind::NotRecognised))),
        }
    }
}

} // verus!
