//! Byte offsets of character positions in UTF-8 text, and slicing by them.

use vstd::prelude::*;
use vstd::string::StringSliceAdditionalSpecFns;
use vstd::utf8::{
    encode_scalar, encode_utf8, encode_utf8_decode_utf8, encode_utf8_first_scalar,
    encode_utf8_valid_utf8, is_char_boundary, length_of_first_scalar, pop_first_scalar,
};

verus! {

/// The byte offset at which character position `k` of `s` starts.
pub open spec fn byte_offset(s: Seq<char>, k: int) -> int {
    encode_utf8(s.take(k)).len() as int
}

/// Encoding distributes over concatenation.
pub proof fn lemma_encode_concat(x: Seq<char>, y: Seq<char>)
    ensures
        encode_utf8(x + y) == encode_utf8(x) + encode_utf8(y),
    decreases x.len(),
{
    if x.len() == 0 {
        assert(x + y =~= y);
        assert(encode_utf8(x) =~= Seq::<u8>::empty());
        assert(encode_utf8(x) + encode_utf8(y) =~= encode_utf8(y));
    } else {
        lemma_encode_concat(x.drop_first(), y);
        assert((x + y).drop_first() =~= x.drop_first() + y);
        assert((x + y)[0] == x[0]);
        assert(encode_utf8(x + y) =~= encode_scalar(x[0] as u32) + encode_utf8(x.drop_first() + y));
        assert(encode_utf8(x) + encode_utf8(y) =~= encode_scalar(x[0] as u32) + (encode_utf8(
            x.drop_first(),
        ) + encode_utf8(y)));
    }
}

/// The end of the encoding of a prefix is a character boundary.
pub proof fn lemma_prefix_boundary(x: Seq<char>, y: Seq<char>)
    ensures
        is_char_boundary(encode_utf8(x + y), encode_utf8(x).len() as int),
    decreases x.len(),
{
    let bytes = encode_utf8(x + y);
    encode_utf8_valid_utf8(x + y);
    lemma_encode_concat(x, y);
    if x.len() == 0 {
    } else {
        encode_utf8_first_scalar(x + y);
        lemma_prefix_boundary(x.drop_first(), y);
        assert((x + y).drop_first() =~= x.drop_first() + y);
        assert(pop_first_scalar(bytes) =~= encode_utf8(x.drop_first() + y));
        assert(length_of_first_scalar(bytes) == encode_scalar(x[0] as u32).len());
        assert(encode_utf8(x).len() == encode_scalar(x[0] as u32).len() + encode_utf8(
            x.drop_first(),
        ).len());
    }
}

/// Two character sequences with the same encoding are equal.
pub proof fn lemma_encode_injective(x: Seq<char>, y: Seq<char>)
    requires
        encode_utf8(x) == encode_utf8(y),
    ensures
        x == y,
{
    encode_utf8_decode_utf8(x);
    encode_utf8_decode_utf8(y);
}

/// The encoding of `s` is `s.take(k)`'s followed by `s.skip(k)`'s.
pub proof fn lemma_split_at(s: Seq<char>, k: int)
    requires
        0 <= k <= s.len(),
    ensures
        encode_utf8(s) == encode_utf8(s.take(k)) + encode_utf8(s.skip(k)),
        is_char_boundary(encode_utf8(s), byte_offset(s, k)),
        byte_offset(s, k) <= encode_utf8(s).len(),
{
    assert(s =~= s.take(k) + s.skip(k));
    lemma_encode_concat(s.take(k), s.skip(k));
    lemma_prefix_boundary(s.take(k), s.skip(k));
}

/// The number of bytes in the UTF-8 encoding of `c`.
pub fn utf8_width(c: char) -> (r: usize)
    ensures
        r == encode_scalar(c as u32).len(),
        1 <= r <= 4,
{
    let v = c as u32;
    if v <= 0x7F {
        1
    } else if v <= 0x7FF {
        2
    } else if v <= 0xFFFF {
        3
    } else {
        4
    }
}

/// One more character adds its own width to the byte offset.
pub proof fn lemma_byte_offset_step(s: Seq<char>, k: int)
    requires
        0 <= k < s.len(),
    ensures
        byte_offset(s, k + 1) == byte_offset(s, k) + encode_scalar(s[k] as u32).len(),
{
    assert(s.take(k + 1) =~= s.take(k) + seq![s[k]]);
    lemma_encode_concat(s.take(k), seq![s[k]]);
    assert(seq![s[k]].drop_first() =~= Seq::<char>::empty());
    assert(encode_utf8(seq![s[k]]) =~= encode_scalar(s[k] as u32) + encode_utf8(
        Seq::<char>::empty(),
    ));
}

/// Byte offsets grow with character positions.
pub proof fn lemma_byte_offset_mono(s: Seq<char>, a: int, b: int)
    requires
        0 <= a <= b <= s.len(),
    ensures
        byte_offset(s, a) <= byte_offset(s, b),
    decreases b - a,
{
    if a < b {
        lemma_byte_offset_mono(s, a, b - 1);
        lemma_byte_offset_step(s, b - 1);
    }
}

/// The byte offset of every character position of `s`, and of its end.
pub fn byte_offsets(s: &str, chars: &Vec<char>) -> (r: Vec<usize>)
    requires
        chars@ == s@,
    ensures
        r.len() == s@.len() + 1,
        forall|k: int| 0 <= k <= s@.len() ==> #[trigger] r@[k] == byte_offset(s@, k),
{
    let mut out: Vec<usize> = Vec::new();
    let mut total: usize = 0;
    let mut i: usize = 0;
    proof {
        assert(s@.take(0) =~= Seq::<char>::empty());
        lemma_split_at(s@, s@.len() as int);
        assert(s@.take(s@.len() as int) =~= s@);
        assert(byte_offset(s@, s@.len() as int) == encode_utf8(s@).len());
    }
    let n: usize = s.as_bytes().len();
    while i < chars.len()
        invariant
            chars@ == s@,
            i <= chars.len(),
            total == byte_offset(s@, i as int),
            byte_offset(s@, s@.len() as int) == n,
            out.len() == i,
            forall|k: int| 0 <= k < i ==> #[trigger] out@[k] == byte_offset(s@, k),
        decreases chars.len() - i,
    {
        out.push(total);
        let w = utf8_width(chars[i]);
        proof {
            lemma_byte_offset_step(s@, i as int);
            lemma_byte_offset_mono(s@, i as int + 1, s@.len() as int);
        }
        total = total + w;
        i = i + 1;
    }
    out.push(total);
    out
}

/// The characters of `s` from position `a` to position `b`, found from their
/// byte offsets.
pub fn sub_str<'a>(s: &'a str, start: usize, end: usize, Ghost(a): Ghost<int>, Ghost(b): Ghost<int>) -> (r: &'a str)
    requires
        0 <= a <= b <= s@.len(),
        start == byte_offset(s@, a),
        end == byte_offset(s@, b),
    ensures
        r@ == s@.subrange(a, b),
{
    proof {
        lemma_split_at(s@, a);
        lemma_byte_offset_mono(s@, a, b);
    }
    let (_, tail) = s.split_at(start);
    proof {
        assert(tail.spec_bytes() == encode_utf8(s@.skip(a)));
        lemma_encode_injective(tail@, s@.skip(a));
        lemma_split_at(tail@, b - a);
        assert(tail@.take(b - a) =~= s@.take(b).skip(a));
        assert(s@.take(b) =~= s@.take(a) + s@.take(b).skip(a));
        lemma_encode_concat(s@.take(a), s@.take(b).skip(a));
    }
    let (mid, _) = tail.split_at(end - start);
    proof {
        assert(mid.spec_bytes() == encode_utf8(tail@.take(b - a)));
        lemma_encode_injective(mid@, tail@.take(b - a));
        assert(s@.subrange(a, b) =~= tail@.take(b - a));
    }
    mid
}

/// Every character takes at least one byte.
pub proof fn lemma_encode_len(s: Seq<char>)
    ensures
        s.len() <= encode_utf8(s).len(),
    decreases s.len(),
{
    if s.len() > 0 {
        lemma_encode_len(s.drop_first());
    }
}

} // verus!
