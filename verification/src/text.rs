//! Character-level facts about UTF-8 text.
//!
//! Source text is modelled as a sequence of characters, while offsets into it
//! are counted in bytes of its UTF-8 encoding.  This module relates the two:
//! how many bytes a run of characters occupies, where a text may be cut, and
//! what the two halves of a cut hold.
use vstd::prelude::*;
use vstd::std_specs::iter::IteratorSpec;
use vstd::string::StringSliceAdditionalSpecFns;
use vstd::utf8::*;

verus! {

/// Number of bytes in the UTF-8 encoding of one character.
pub open spec fn char_len(c: char) -> nat {
    if (c as u32) < 0x80 {
        1
    } else if (c as u32) < 0x800 {
        2
    } else if (c as u32) < 0x10000 {
        3
    } else {
        4
    }
}

/// Number of bytes in the UTF-8 encoding of a text.
pub open spec fn utf8_len(s: Seq<char>) -> nat
    decreases s.len(),
{
    if s.len() == 0 {
        0
    } else {
        char_len(s[0]) + utf8_len(s.drop_first())
    }
}

/// Byte offset at which character number `k` of `s` starts.
pub open spec fn byte_offset(s: Seq<char>, k: int) -> nat {
    utf8_len(s.take(k))
}

/// The encoding of one character has `char_len` bytes.
pub proof fn lemma_scalar_len(c: char)
    ensures
        encode_scalar(c as u32).len() == char_len(c),
        1 <= char_len(c) <= 4,
{
    char_is_scalar(c);
}

/// `utf8_len` is the length of the encoding that vstd defines.
pub proof fn lemma_utf8_len_is_encoded_len(s: Seq<char>)
    ensures
        encode_utf8(s).len() == utf8_len(s),
    decreases s.len(),
{
    if s.len() > 0 {
        lemma_scalar_len(s[0]);
        lemma_utf8_len_is_encoded_len(s.drop_first());
    }
}

/// Encoding distributes over concatenation.
pub proof fn lemma_encode_concat(a: Seq<char>, b: Seq<char>)
    ensures
        encode_utf8(a + b) =~= encode_utf8(a) + encode_utf8(b),
    decreases a.len(),
{
    if a.len() > 0 {
        assert((a + b).drop_first() =~= a.drop_first() + b);
        lemma_encode_concat(a.drop_first(), b);
    }
}

/// Byte lengths add up over concatenation.
pub proof fn lemma_utf8_len_concat(a: Seq<char>, b: Seq<char>)
    ensures
        utf8_len(a + b) == utf8_len(a) + utf8_len(b),
{
    lemma_encode_concat(a, b);
    lemma_utf8_len_is_encoded_len(a);
    lemma_utf8_len_is_encoded_len(b);
    lemma_utf8_len_is_encoded_len(a + b);
}

/// Cutting a text at character `k` cuts its byte length in two.
pub proof fn lemma_utf8_len_split(s: Seq<char>, k: int)
    requires
        0 <= k <= s.len(),
    ensures
        utf8_len(s) == utf8_len(s.take(k)) + utf8_len(s.skip(k)),
{
    assert(s =~= s.take(k) + s.skip(k));
    lemma_utf8_len_concat(s.take(k), s.skip(k));
}

/// Taking one more character adds that character's width.
pub proof fn lemma_byte_offset_step(s: Seq<char>, k: int)
    requires
        0 <= k < s.len(),
    ensures
        byte_offset(s, k + 1) == byte_offset(s, k) + char_len(s[k]),
        byte_offset(s, k + 1) <= utf8_len(s),
{
    let head = s.take(k);
    let one = seq![s[k]];
    assert(s.take(k + 1) =~= head + one);
    lemma_utf8_len_concat(head, one);
    assert(utf8_len(one) == char_len(s[k])) by {
        reveal_with_fuel(utf8_len, 2);
    }
    lemma_utf8_len_split(s, k + 1);
}

/// Byte offsets grow with the character index.
pub proof fn lemma_byte_offset_monotonic(s: Seq<char>, i: int, j: int)
    requires
        0 <= i <= j <= s.len(),
    ensures
        byte_offset(s, i) <= byte_offset(s, j) <= utf8_len(s),
        i < j ==> byte_offset(s, i) < byte_offset(s, j),
        byte_offset(s, j) - byte_offset(s, i) == utf8_len(s.subrange(i, j)),
{
    let a = s.take(i);
    let b = s.subrange(i, j);
    assert(s.take(j) =~= a + b);
    lemma_utf8_len_concat(a, b);
    lemma_utf8_len_split(s, j);
    if i < j {
        lemma_scalar_len(b[0]);
    }
}

/// Every character start is a character boundary of the encoding.
pub proof fn lemma_offset_is_boundary(s: Seq<char>, k: int)
    requires
        0 <= k <= s.len(),
    ensures
        is_char_boundary(encode_utf8(s), byte_offset(s, k) as int),
    decreases k,
{
    let bytes = encode_utf8(s);
    encode_utf8_valid_utf8(s);
    if k > 0 {
        let tail = s.drop_first();
        encode_utf8_first_scalar(s);
        lemma_scalar_len(s[0]);
        assert(pop_first_scalar(bytes) =~= encode_utf8(tail));
        assert(s.take(k).drop_first() =~= tail.take(k - 1));
        lemma_offset_is_boundary(tail, k - 1);
        lemma_utf8_len_split(s, k);
        lemma_utf8_len_is_encoded_len(s);
        lemma_utf8_len_is_encoded_len(s.skip(k));
    }
}

/// Two texts with the same encoding are the same text.
pub proof fn lemma_encode_injective(a: Seq<char>, b: Seq<char>)
    requires
        encode_utf8(a) == encode_utf8(b),
    ensures
        a == b,
{
    encode_utf8_decode_utf8(a);
    encode_utf8_decode_utf8(b);
}

/// Length of `s` in bytes.
pub fn byte_len(s: &str) -> (n: usize)
    ensures
        n == utf8_len(s@),
{
    broadcast use vstd::slice::axiom_spec_len;

    proof {
        lemma_utf8_len_is_encoded_len(s@);
    }
    s.as_bytes().len()
}

/// Width in bytes of the encoding of `c`.
pub fn char_width(c: char) -> (n: usize)
    ensures
        n == char_len(c),
        1 <= n <= 4,
{
    let v = c as u32;
    if v < 0x80 {
        1
    } else if v < 0x800 {
        2
    } else if v < 0x10000 {
        3
    } else {
        4
    }
}

/// Cuts `s` at the byte offset `mid`, which is where character `k` starts.
pub(crate) fn split_at_char<'a>(s: &'a str, mid: usize, Ghost(k): Ghost<int>) -> (r: (
    &'a str,
    &'a str,
))
    requires
        0 <= k <= s@.len(),
        mid == byte_offset(s@, k),
    ensures
        r.0@ == s@.take(k),
        r.1@ == s@.skip(k),
{
    proof {
        lemma_offset_is_boundary(s@, k);
    }
    let r = s.split_at(mid);
    proof {
        let head = s@.take(k);
        let tail = s@.skip(k);
        assert(s@ =~= head + tail);
        lemma_encode_concat(head, tail);
        lemma_utf8_len_is_encoded_len(head);
        lemma_utf8_len_is_encoded_len(s@);
        assert(encode_utf8(s@).subrange(0, mid as int) =~= encode_utf8(head));
        assert(encode_utf8(s@).subrange(mid as int, encode_utf8(s@).len() as int) =~= encode_utf8(
            tail,
        ));
        lemma_encode_injective(r.0@, head);
        lemma_encode_injective(r.1@, tail);
    }
    r
}

/// The text after the first character of `s`, which is `c`.
pub(crate) fn after_first<'a>(s: &'a str, c: char) -> (r: &'a str)
    requires
        s@.len() > 0,
        s@[0] == c,
    ensures
        r@ == s@.skip(1),
{
    proof {
        lemma_byte_offset_step(s@, 0);
    }
    split_at_char(s, char_width(c), Ghost(1)).1
}

/// First character of `s`, if it has one.
pub fn first_char(s: &str) -> (r: Option<char>)
    ensures
        r == (if s@.len() == 0 { None } else { Some(s@[0]) }),
{
    broadcast use vstd::string::group_string_axioms;
    let mut it = s.chars();
    it.next()
}

/// Whether two texts hold the same characters.
pub fn str_eq(a: &str, b: &str) -> (r: bool)
    ensures
        r == (a@ == b@),
{
    let x = a.as_bytes();
    let y = b.as_bytes();
    if x.len() != y.len() {
        return false;
    }
    let mut i: usize = 0;
    while i < x.len()
        invariant
            i <= x@.len() == y@.len(),
            x@ == a.spec_bytes(),
            y@ == b.spec_bytes(),
            forall|j: int| 0 <= j < i ==> x@[j] == y@[j],
        decreases x@.len() - i,
    {
        if x[i] != y[i] {
            return false;
        }
        i += 1;
    }
    proof {
        assert(x@ =~= y@);
        lemma_encode_injective(a@, b@);
    }
    true
}

/// Whether `c` occurs in `s`.
pub fn contains_char(s: &str, c: char) -> (r: bool)
    ensures
        r == s@.contains(c),
{
    broadcast use vstd::string::group_string_axioms;

    let mut chars = s.chars();
    let ghost mut k: int = 0;
    loop
        invariant
            0 <= k <= s@.len(),
            chars.remaining() == s@.skip(k),
            forall|i: int| 0 <= i < k ==> s@[i] != c,
        decreases s@.len() - k,
    {
        match chars.next() {
            None => {
                return false;
            },
            Some(d) => {
                if d == c {
                    return true;
                }
                proof {
                    k = k + 1;
                }
            },
        }
    }
}

} // verus!
