use vstd::prelude::*;

verus! {

/// Whitespace as the grammar understands it.
pub open spec fn is_space(c: char) -> bool {
    c == ' ' || c == '\t' || c == '\r' || c == '\n'
}

pub open spec fn is_digit(c: char) -> bool {
    '0' <= c && c <= '9'
}

pub open spec fn digit_value(c: char) -> nat {
    (c as u32 - '0' as u32) as nat
}

/// The end of the run of whitespace that starts at `p`.
pub open spec fn space_end(s: Seq<char>, p: int) -> int
    decreases s.len() - p,
{
    if 0 <= p < s.len() && is_space(s[p]) {
        space_end(s, p + 1)
    } else {
        p
    }
}

/// The end of the run of decimal digits that starts at `p`.
pub open spec fn digits_end(s: Seq<char>, p: int) -> int
    decreases s.len() - p,
{
    if 0 <= p < s.len() && is_digit(s[p]) {
        digits_end(s, p + 1)
    } else {
        p
    }
}

/// The number that a sequence of decimal digits denotes.
pub open spec fn digits_value(d: Seq<char>) -> nat
    decreases d.len(),
{
    if d.len() == 0 {
        0
    } else {
        digits_value(d.drop_last()) * 10 + digit_value(d.last())
    }
}

/// The keyword spelt `lower` in lower case and `upper` in upper case stands
/// at `p`, each letter in either case.
pub open spec fn keyword_at(s: Seq<char>, p: int, lower: Seq<char>, upper: Seq<char>) -> bool {
    &&& 0 <= p
    &&& p + lower.len() <= s.len()
    &&& forall|i: int|
        0 <= i < lower.len() ==> #[trigger] s[p + i] == lower[i] || s[p + i] == upper[i]
}

pub proof fn lemma_space_end_bounds(s: Seq<char>, p: int)
    requires
        0 <= p <= s.len(),
    ensures
        p <= space_end(s, p) <= s.len(),
        forall|i: int| p <= i < space_end(s, p) ==> is_space(#[trigger] s[i]),
    decreases s.len() - p,
{
    if p < s.len() && is_space(s[p]) {
        lemma_space_end_bounds(s, p + 1);
    }
}

pub proof fn lemma_digits_end_bounds(s: Seq<char>, p: int)
    requires
        0 <= p <= s.len(),
    ensures
        p <= digits_end(s, p) <= s.len(),
        forall|i: int| p <= i < digits_end(s, p) ==> is_digit(#[trigger] s[i]),
    decreases s.len() - p,
{
    if p < s.len() && is_digit(s[p]) {
        lemma_digits_end_bounds(s, p + 1);
    }
}

/// Skips the whitespace that starts at `p`.
pub fn skip_space(s: &Vec<char>, p: usize) -> (r: usize)
    requires
        p <= s@.len(),
    ensures
        r as int == space_end(s@, p as int),
        p <= r <= s@.len() <= usize::MAX,
{
    let n = s.len();
    let mut i: usize = p;
    while i < s.len() && (s[i] == ' ' || s[i] == '\t' || s[i] == '\r' || s[i] == '\n')
        invariant
            p <= i <= s@.len(),
            space_end(s@, i as int) == space_end(s@, p as int),
        decreases s@.len() - i,
    {
        i = i + 1;
    }
    i
}

/// Skips the decimal digits that start at `p`.
pub fn skip_digits(s: &Vec<char>, p: usize) -> (r: usize)
    requires
        p <= s@.len(),
    ensures
        r as int == digits_end(s@, p as int),
        p <= r <= s@.len(),
{
    let mut i: usize = p;
    while i < s.len() && ('0' <= s[i] && s[i] <= '9')
        invariant
            p <= i <= s@.len(),
            digits_end(s@, i as int) == digits_end(s@, p as int),
        decreases s@.len() - i,
    {
        i = i + 1;
    }
    i
}

/// Whether the keyword spelt `lower` / `upper` stands at `p`, each letter in
/// either case.
pub fn match_keyword(s: &Vec<char>, p: usize, lower: &Vec<char>, upper: &Vec<char>) -> (r: bool)
    requires
        p <= s@.len(),
        upper@.len() == lower@.len(),
    ensures
        r == keyword_at(s@, p as int, lower@, upper@),
{
    let n = s.len();
    if lower.len() > n - p {
        return false;
    }
    let mut i: usize = 0;
    while i < lower.len()
        invariant
            n == s@.len(),
            p <= s@.len(),
            upper@.len() == lower@.len(),
            p + lower@.len() <= s@.len(),
            0 <= i <= lower@.len(),
            forall|j: int|
                0 <= j < i ==> #[trigger] s@[p + j] == lower@[j] || s@[p + j] == upper@[j],
        decreases lower@.len() - i,
    {
        let c = s[p + i];
        if !(c == lower[i] || c == upper[i]) {
            return false;
        }
        i = i + 1;
    }
    true
}

/// Reads the digits in `[p, e)` as a number, or `None` where it exceeds `max`.
pub fn digits_number(s: &Vec<char>, p: usize, e: usize, max: u32) -> (r: Option<u32>)
    requires
        p <= e <= s@.len(),
        forall|i: int| p <= i < e ==> is_digit(#[trigger] s@[i]),
    ensures
        match r {
            Some(v) => v as nat == digits_value(s@.subrange(p as int, e as int)) && v <= max,
            None => digits_value(s@.subrange(p as int, e as int)) > max,
        },
{
    let mut v: u32 = 0;
    let mut over = false;
    let mut i: usize = p;
    while i < e
        invariant
            p <= i <= e <= s@.len(),
            forall|j: int| p <= j < e ==> is_digit(#[trigger] s@[j]),
            !over ==> v as nat == digits_value(s@.subrange(p as int, i as int)) && v <= max,
            over ==> digits_value(s@.subrange(p as int, i as int)) > max,
        decreases e - i,
    {
        let ghost old_sub = s@.subrange(p as int, i as int);
        assert(s@.subrange(p as int, i + 1).drop_last() =~= old_sub);
        assert(is_digit(s@[i as int]));
        let d = (s[i] as u32) - ('0' as u32);
        assert(d as nat == digit_value(s@[i as int]) && d <= 9);
        if !over {
            if d > max || v > (max - d) / 10 {
                over = true;
                assert(v * 10 + d > max) by (nonlinear_arith)
                    requires d > max || v > (max - d) / 10;
            } else {
                assert(v * 10 + d <= max) by (nonlinear_arith)
                    requires v <= (max - d) / 10, d <= 9;
                v = v * 10 + d;
            }
        }
        i = i + 1;
    }
    if over {
        None
    } else {
        Some(v)
    }
}

} // verus!
