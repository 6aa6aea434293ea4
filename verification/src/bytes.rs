//! Byte offsets into UTF-8 text, and what they have to do with characters.

use vstd::prelude::*;
use vstd::string::StringSliceAdditionalSpecFns;
use vstd::utf8::{
    encode_scalar, encode_utf8, encode_utf8_decode_utf8, encode_utf8_first_scalar,
    encode_utf8_valid_utf8, is_char_boundary, pop_first_scalar,
};

verus! {

/// How many bytes a character takes in UTF-8.
pub open spec fn utf8_width(c: char) -> int {
    let u = c as u32;
    if u < 0x80 {
        1
    } else if u < 0x800 {
        2
    } else if u < 0x10000 {
        3
    } else {
        4
    }
}

/// How many bytes a character takes in UTF-8.
pub fn len_utf8(c: char) -> (r: usize)
    ensures
        r == utf8_width(c),
        1 <= r <= 4,
{
    let u: u32 = c as u32;
    if u < 0x80 {
        1
    } else if u < 0x800 {
        2
    } else if u < 0x10000 {
        3
    } else {
        4
    }
}

/// How many bytes the first `i` characters of a text take.
pub open spec fn byte_at(text: Seq<char>, i: int) -> int
    decreases i,
{
    if i <= 0 {
        0
    } else {
        byte_at(text, i - 1) + utf8_width(text[i - 1])
    }
}

/// How many bytes a text takes.
pub open spec fn byte_len(text: Seq<char>) -> int {
    byte_at(text, text.len() as int)
}

/// A byte offset at which a character of the text starts, or the text ends.
pub open spec fn is_boundary(text: Seq<char>, byte: int) -> bool {
    exists|i: int| 0 <= i <= text.len() && #[trigger] byte_at(text, i) == byte
}

/// The character that starts at a byte offset.
pub open spec fn char_at(text: Seq<char>, byte: int) -> int {
    choose|i: int| 0 <= i <= text.len() && #[trigger] byte_at(text, i) == byte
}

/// Later characters start later.
pub proof fn lemma_byte_at_grows(text: Seq<char>, i: int, j: int)
    requires
        0 <= i <= j,
    ensures
        byte_at(text, i) + (j - i) <= byte_at(text, j),
        0 <= i <= byte_at(text, i),
    decreases j,
{
    if i < j {
        lemma_byte_at_grows(text, i, j - 1);
    } else if i > 0 {
        lemma_byte_at_grows(text, i - 1, i - 1);
    }
}

/// The character that starts where the `i`-th starts is the `i`-th.
pub proof fn lemma_char_at(text: Seq<char>, i: int)
    requires
        0 <= i <= text.len(),
    ensures
        is_boundary(text, byte_at(text, i)),
        char_at(text, byte_at(text, i)) == i,
{
    let k = char_at(text, byte_at(text, i));
    assert(byte_at(text, i) == byte_at(text, i));
    if k < i {
        lemma_byte_at_grows(text, k, i);
    } else if i < k {
        lemma_byte_at_grows(text, i, k);
    }
}

/// Offsets depend on the characters before them alone.
pub proof fn lemma_byte_at_prefix(a: Seq<char>, b: Seq<char>, i: int)
    requires
        0 <= i <= a.len(),
        i <= b.len(),
        forall|j: int| 0 <= j < i ==> a[j] == b[j],
    ensures
        byte_at(a, i) == byte_at(b, i),
    decreases i,
{
    if i > 0 {
        lemma_byte_at_prefix(a, b, i - 1);
    }
}

/// The offset of a character in a part of a text.
pub proof fn lemma_byte_at_part(text: Seq<char>, from: int, to: int, i: int)
    requires
        0 <= from <= to <= text.len(),
        0 <= i <= to - from,
    ensures
        byte_at(text.subrange(from, to), i) == byte_at(text, from + i) - byte_at(text, from),
    decreases i,
{
    if i > 0 {
        lemma_byte_at_part(text, from, to, i - 1);
    }
}

/// A character takes as many bytes as its encoding has.
proof fn lemma_width(c: char)
    ensures
        encode_scalar(c as u32).len() == utf8_width(c),
{
}

/// Offsets without the first character.
proof fn lemma_byte_at_drop_first(text: Seq<char>, i: int)
    requires
        1 <= i <= text.len(),
    ensures
        byte_at(text, i) == utf8_width(text[0]) + byte_at(text.drop_first(), i - 1),
    decreases i,
{
    if i > 1 {
        lemma_byte_at_drop_first(text, i - 1);
    } else {
        assert(byte_at(text, 0) == 0);
    }
}

/// A text has as many bytes as its characters take.
pub proof fn lemma_encoded_len(text: Seq<char>)
    ensures
        encode_utf8(text).len() == byte_len(text),
    decreases text.len(),
{
    if text.len() > 0 {
        lemma_encoded_len(text.drop_first());
        lemma_width(text[0]);
        lemma_byte_at_drop_first(text, text.len() as int);
    }
}

/// The bytes of two texts one after the other are their bytes one after the other.
pub proof fn lemma_encode_concat(a: Seq<char>, b: Seq<char>)
    ensures
        encode_utf8(a + b) == encode_utf8(a) + encode_utf8(b),
    decreases a.len(),
{
    if a.len() == 0 {
        assert(a + b =~= b);
        assert(encode_utf8(a) + encode_utf8(b) =~= encode_utf8(b));
    } else {
        lemma_encode_concat(a.drop_first(), b);
        assert((a + b).drop_first() =~= a.drop_first() + b);
        assert(encode_utf8(a) + encode_utf8(b) =~= encode_scalar(a[0] as u32) + (encode_utf8(
            a.drop_first(),
        ) + encode_utf8(b)));
    }
}

/// Where a character starts, the encoded text has a boundary.
proof fn lemma_boundary(text: Seq<char>, i: int)
    requires
        0 <= i <= text.len(),
    ensures
        is_char_boundary(encode_utf8(text), byte_at(text, i)),
    decreases text.len(),
{
    let bytes = encode_utf8(text);
    encode_utf8_valid_utf8(text);
    if i > 0 {
        let rest = text.drop_first();
        encode_utf8_first_scalar(text);
        lemma_width(text[0]);
        assert(pop_first_scalar(bytes) =~= encode_utf8(rest));
        lemma_byte_at_drop_first(text, i);
        lemma_boundary(rest, i - 1);
        lemma_encoded_len(text);
        lemma_byte_at_grows(text, i, text.len() as int);
        lemma_byte_at_grows(text, 0, i);
    }
}

/// The bytes of a part of a text are the part of its bytes.
pub proof fn lemma_encoded_part(text: Seq<char>, i: int, j: int)
    requires
        0 <= i <= j <= text.len(),
    ensures
        encode_utf8(text.subrange(i, j)) == encode_utf8(text).subrange(
            byte_at(text, i),
            byte_at(text, j),
        ),
        0 <= byte_at(text, i) <= byte_at(text, j) <= encode_utf8(text).len(),
{
    let a = text.subrange(0, i);
    let b = text.subrange(i, j);
    let c = text.subrange(j, text.len() as int);
    assert(text =~= a + b + c);
    lemma_encode_concat(a + b, c);
    lemma_encode_concat(a, b);
    lemma_encoded_len(a);
    lemma_encoded_len(b);
    lemma_encoded_len(c);
    lemma_byte_at_prefix(a, text, i);
    lemma_byte_at_part(text, i, j, j - i);
    lemma_byte_at_part(text, j, text.len() as int, text.len() - j);
    lemma_byte_at_grows(text, i, j);
    lemma_byte_at_grows(text, j, text.len() as int);
    assert(encode_utf8(text).subrange(byte_at(text, i), byte_at(text, j)) =~= encode_utf8(b));
}

/// Texts with the same bytes are the same.
pub proof fn lemma_encode_injective(a: Seq<char>, b: Seq<char>)
    requires
        encode_utf8(a) == encode_utf8(b),
    ensures
        a == b,
{
    encode_utf8_decode_utf8(a);
    encode_utf8_decode_utf8(b);
}

/// How many bytes a text takes.
pub fn text_len(text: &str) -> (r: usize)
    ensures
        r == byte_len(text@),
        text@.len() <= r,
{
    proof {
        lemma_encoded_len(text@);
        lemma_byte_at_grows(text@, text@.len() as int, text@.len() as int);
    }
    text.as_bytes().len()
}

/// The part of a text between two byte offsets.
pub fn slice(text: &str, from: usize, to: usize) -> (r: &str)
    requires
        from <= to,
        is_boundary(text@, from as int),
        is_boundary(text@, to as int),
    ensures
        r@ == text@.subrange(char_at(text@, from as int), char_at(text@, to as int)),
        char_at(text@, from as int) <= char_at(text@, to as int),
        byte_len(r@) == to - from,
{
    let ghost i = char_at(text@, from as int);
    let ghost j = char_at(text@, to as int);
    proof {
        if j < i {
            lemma_byte_at_grows(text@, j, i);
        }
        lemma_boundary(text@, j);
        lemma_encoded_part(text@, 0, j);
        lemma_encoded_part(text@, i, j);
    }
    let head = text.split_at(to).0;
    proof {
        assert(text@.subrange(0, j) =~= text@.take(j));
        assert(head.spec_bytes() =~= encode_utf8(text@.take(j)));
        lemma_encode_injective(head@, text@.take(j));
        lemma_byte_at_prefix(head@, text@, i);
        lemma_boundary(head@, i);
        lemma_encoded_part(head@, i, j);
    }
    let part = head.split_at(from).1;
    proof {
        assert(head@.subrange(i, j) =~= text@.subrange(i, j));
        lemma_encoded_len(head@);
        lemma_byte_at_prefix(head@, text@, j);
        assert(part.spec_bytes() =~= encode_utf8(text@.subrange(i, j)));
        lemma_encode_injective(part@, text@.subrange(i, j));
        lemma_byte_at_part(text@, i, j, j - i);
    }
    part
}

/// How many characters of a text start before a byte offset.
pub fn chars_before(chars: &Vec<char>, byte: usize) -> (r: usize)
    requires
        byte_len(chars@) <= usize::MAX,
    ensures
        r <= chars@.len(),
        byte_at(chars@, r as int) >= byte || r == chars@.len(),
        r > 0 ==> byte_at(chars@, r - 1) < byte,
        is_boundary(chars@, byte as int) ==> r == char_at(chars@, byte as int) && byte_at(
            chars@,
            r as int,
        ) == byte,
{
    let mut i: usize = 0;
    let mut at: usize = 0;
    while i < chars.len() && at < byte
        invariant
            i <= chars@.len(),
            at == byte_at(chars@, i as int),
            byte_len(chars@) <= usize::MAX,
            i > 0 ==> byte_at(chars@, i - 1) < byte,
        decreases chars@.len() - i,
    {
        proof {
            lemma_byte_at_grows(chars@, i + 1, chars@.len() as int);
        }
        at = at + len_utf8(chars[i]);
        i += 1;
    }
    proof {
        if is_boundary(chars@, byte as int) {
            let k = char_at(chars@, byte as int);
            if k < i {
                lemma_byte_at_grows(chars@, k, i - 1);
            } else if i < k {
                lemma_byte_at_grows(chars@, i as int, k);
            }
        }
    }
    i
}

/// How many bytes the first `n` characters take.
pub fn bytes_before(chars: &Vec<char>, n: usize) -> (r: usize)
    requires
        n <= chars@.len(),
        byte_len(chars@) <= usize::MAX,
    ensures
        r == byte_at(chars@, n as int),
{
    let mut i: usize = 0;
    let mut at: usize = 0;
    while i < n
        invariant
            i <= n <= chars@.len(),
            at == byte_at(chars@, i as int),
            byte_len(chars@) <= usize::MAX,
        decreases n - i,
    {
        proof {
            lemma_byte_at_grows(chars@, i + 1, chars@.len() as int);
        }
        at = at + len_utf8(chars[i]);
        i += 1;
    }
    at
}

/// Whether two texts are the same.
pub fn same_text(a: &str, b: &str) -> (r: bool)
    ensures
        r == (a@ == b@),
{
    let x = a.as_bytes();
    let y = b.as_bytes();
    if x.len() != y.len() {
        return false;
    }
    let mut i: usize = 0;
    while i < x.len()
        invariant
            i <= x@.len(),
            x@.len() == y@.len(),
            x@ == encode_utf8(a@),
            y@ == encode_utf8(b@),
            forall|j: int| 0 <= j < i ==> x@[j] == y@[j],
        decreases x@.len() - i,
    {
        if x[i] != y[i] {
            assert(x@ != y@);
            return false;
        }
        i += 1;
    }
    proof {
        assert(x@ =~= y@);
        lemma_encode_injective(a@, b@);
    }
    true
}

} // verus!
