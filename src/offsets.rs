//! Byte offsets of character positions, for diagnostics that point into
//! the UTF-8 text of a message.
use vstd::prelude::*;
use vstd::utf8::{encode_scalar, encode_utf8};

verus! {

broadcast use {vstd::utf8::char_is_scalar, vstd::slice::group_slice_axioms};

/// The byte offset in the UTF-8 encoding of `s` at which character position
/// `i` begins; positions past the end count as the end.
pub open spec fn byte_offset(s: Seq<char>, i: int) -> int {
    let j = if i < s.len() {
        i
    } else {
        s.len() as int
    };
    encode_utf8(s.subrange(0, j)).len() as int
}

pub proof fn lemma_encode_concat(a: Seq<char>, b: Seq<char>)
    ensures
        encode_utf8(a + b) =~= encode_utf8(a) + encode_utf8(b),
    decreases a.len(),
{
    if a.len() == 0 {
        assert(a + b =~= b);
    } else {
        lemma_encode_concat(a.drop_first(), b);
        assert((a + b).drop_first() =~= a.drop_first() + b);
        assert((a + b)[0] == a[0]);
    }
}

/// The number of bytes that UTF-8 takes for `c`.
fn utf8_width(c: char) -> (r: usize)
    ensures
        r == encode_scalar(c as u32).len(),
        1 <= r <= 4,
{
    let v = c as u32;
    if v < 0x80 {
        1
    } else if v < 0x800 {
        2
    } else if v < 0x10000 {
        3
    } else {
        4
    }
}

/// The byte offset of every character position of `text`, its end included.
pub fn byte_offsets(text: &str, s: &Vec<char>) -> (r: Vec<usize>)
    requires
        text@ == s@,
    ensures
        r@.len() == s@.len() + 1,
        forall|i: int| 0 <= i <= s@.len() ==> r@[i] == byte_offset(s@, i),
{
    let n = s.len();
    let bytes = text.as_bytes();
    let total = bytes.len();
    assert(s@.subrange(0, n as int) =~= s@);
    let mut r: Vec<usize> = Vec::new();
    let mut acc: usize = 0;
    assert(s@.subrange(0, 0) =~= Seq::<char>::empty());
    r.push(0);
    let mut i: usize = 0;
    while i < n
        invariant
            n == s@.len(),
            text@ == s@,
            total as int == encode_utf8(s@).len(),
            i <= n,
            r@.len() == i + 1,
            acc as int == byte_offset(s@, i as int),
            forall|j: int| 0 <= j <= i ==> r@[j] == byte_offset(s@, j),
        decreases n - i,
    {
        let w = utf8_width(s[i]);
        proof {
            let pre = s@.subrange(0, i as int);
            let next = s@.subrange(0, i + 1);
            let one = seq![s@[i as int]];
            lemma_encode_concat(pre, one);
            assert(pre + one =~= next);
            assert(one.drop_first() =~= Seq::<char>::empty());
            assert(encode_utf8(Seq::<char>::empty()) =~= Seq::<u8>::empty());
            assert(encode_utf8(one) == encode_scalar(one[0] as u32) + encode_utf8(one.drop_first()));
            assert(encode_utf8(one) =~= encode_scalar(s@[i as int] as u32));
            assert(encode_utf8(next).len() == encode_utf8(pre).len() + w);
            assert(byte_offset(s@, i + 1) == encode_utf8(next).len());
            lemma_encode_concat(next, s@.subrange(i + 1, n as int));
            assert(next + s@.subrange(i + 1, n as int) =~= s@);
        }
        acc = acc + w;
        r.push(acc);
        i = i + 1;
    }
    r
}

} // verus!
