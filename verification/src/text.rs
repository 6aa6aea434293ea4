//! Text as characters: classes of characters, joining and splitting, and grapheme clusters.

use unicode_segmentation::UnicodeSegmentation;
use vstd::prelude::*;

verus! {

/// `String::push` appends one character.
pub assume_specification[ String::push ](s: &mut String, c: char)
    ensures
        final(s)@ == old(s)@.push(c),
;

/// The texts of a list of strings.
pub open spec fn texts(parts: Seq<String>) -> Seq<Seq<char>> {
    Seq::new(parts.len(), |i: int| parts[i]@)
}

/// The parts, one after the other.
pub open spec fn joined(parts: Seq<Seq<char>>) -> Seq<char>
    decreases parts.len(),
{
    if parts.len() == 0 {
        Seq::empty()
    } else {
        joined(parts.drop_last()) + parts.last()
    }
}

/// Every part holds at least one character.
pub open spec fn all_filled(parts: Seq<Seq<char>>) -> bool {
    forall|i: int| 0 <= i < parts.len() ==> (#[trigger] parts[i]).len() > 0
}

/// One more part is appended to what the others make.
pub proof fn lemma_joined_push(parts: Seq<Seq<char>>, part: Seq<char>)
    ensures
        joined(parts.push(part)) == joined(parts) + part,
{
    assert(parts.push(part).drop_last() =~= parts);
}

/// Two lists make what the first makes and then what the second makes.
pub proof fn lemma_joined_concat(a: Seq<Seq<char>>, b: Seq<Seq<char>>)
    ensures
        joined(a + b) == joined(a) + joined(b),
    decreases b.len(),
{
    if b.len() == 0 {
        assert(a + b =~= a);
        assert(joined(a) + joined(b) =~= joined(a));
    } else {
        lemma_joined_concat(a, b.drop_last());
        assert((a + b).drop_last() =~= a + b.drop_last());
        assert(joined(a) + joined(b) =~= (joined(a) + joined(b.drop_last())) + b.last());
    }
}

/// As many filled parts make at least as many characters.
pub proof fn lemma_joined_len(parts: Seq<Seq<char>>)
    requires
        all_filled(parts),
    ensures
        parts.len() <= joined(parts).len(),
    decreases parts.len(),
{
    if parts.len() > 0 {
        assert forall|i: int| 0 <= i < parts.drop_last().len() implies (#[trigger] parts.drop_last()[i]).len()
            > 0 by {
            assert(parts.drop_last()[i] == parts[i]);
        }
        lemma_joined_len(parts.drop_last());
        assert(parts[parts.len() - 1].len() > 0);
    }
}

/// Appends to `out` the parts from `from` up to `to`.
pub fn append_parts(out: &mut String, parts: &Vec<String>, from: usize, to: usize)
    requires
        from <= to <= parts@.len(),
    ensures
        final(out)@ == old(out)@ + joined(texts(parts@).subrange(from as int, to as int)),
{
    let ghost before = out@;
    let ghost all = texts(parts@);
    let mut i: usize = from;
    assert(before + joined(all.subrange(from as int, from as int)) =~= before);
    while i < to
        invariant
            from <= i <= to <= parts@.len(),
            all == texts(parts@),
            out@ == before + joined(all.subrange(from as int, i as int)),
        decreases to - i,
    {
        proof {
            let short = all.subrange(from as int, i as int);
            lemma_joined_push(short, all[i as int]);
            assert(all.subrange(from as int, i + 1) =~= short.push(all[i as int]));
            assert(before + (joined(short) + all[i as int]) =~= (before + joined(short))
                + all[i as int]);
        }
        out.append(parts[i].as_str());
        i += 1;
    }
}

/// The characters of a text.
pub fn chars_of(text: &str) -> (r: Vec<char>)
    ensures
        r@ == text@,
{
    let mut out: Vec<char> = Vec::new();
    for c in it: text.chars()
        invariant
            it.seq() == text@,
            out@ == text@.take(it.index() as int),
    {
        out.push(c);
        assert(out@ =~= text@.take(it.index() as int + 1));
    }
    assert(text@.take(text@.len() as int) =~= text@);
    out
}

/// The text made of the characters from `from` up to `to`.
pub fn text_of(chars: &Vec<char>, from: usize, to: usize) -> (r: String)
    requires
        from <= to <= chars@.len(),
    ensures
        r@ == chars@.subrange(from as int, to as int),
{
    let mut out = String::new();
    let mut i: usize = from;
    while i < to
        invariant
            from <= i <= to <= chars@.len(),
            out@ == chars@.subrange(from as int, i as int),
        decreases to - i,
    {
        out.push(chars[i]);
        i += 1;
        assert(out@ =~= chars@.subrange(from as int, i as int));
    }
    out
}

/// A text of its own with the same characters.
pub fn copy_of(text: &str) -> (r: String)
    ensures
        r@ == text@,
{
    text.to_owned()
}

/// `n` spaces.
pub fn spaces(n: usize) -> (r: String)
    ensures
        r@ == Seq::new(n as nat, |i: int| ' '),
{
    let mut out = String::new();
    let mut i: usize = 0;
    while i < n
        invariant
            i <= n,
            out@ == Seq::new(i as nat, |i: int| ' '),
        decreases n - i,
    {
        out.push(' ');
        i += 1;
        assert(out@ =~= Seq::new(i as nat, |i: int| ' '));
    }
    out
}

/// Whether a character has the Unicode property White_Space.
pub open spec fn is_white_space(c: char) -> bool {
    let u = c as u32;
    ||| 0x9 <= u <= 0xd
    ||| u == 0x20
    ||| u == 0x85
    ||| u == 0xa0
    ||| u == 0x1680
    ||| 0x2000 <= u <= 0x200a
    ||| u == 0x2028
    ||| u == 0x2029
    ||| u == 0x202f
    ||| u == 0x205f
    ||| u == 0x3000
}

/// Whether a character is white space.
pub fn is_whitespace(c: char) -> (r: bool)
    ensures
        r == is_white_space(c),
{
    let u: u32 = c as u32;
    (0x9 <= u && u <= 0xd) || u == 0x20 || u == 0x85 || u == 0xa0 || u == 0x1680 || (0x2000 <= u
        && u <= 0x200a) || u == 0x2028 || u == 0x2029 || u == 0x202f || u == 0x205f || u == 0x3000
}

/// Whether a character is one of the punctuation characters of ASCII.
pub open spec fn is_punctuation(c: char) -> bool {
    let u = c as u32;
    0x21 <= u <= 0x2f || 0x3a <= u <= 0x40 || 0x5b <= u <= 0x60 || 0x7b <= u <= 0x7e
}

/// Whether a character is ASCII punctuation.
pub fn is_ascii_punctuation(c: char) -> (r: bool)
    ensures
        r == is_punctuation(c),
{
    let u: u32 = c as u32;
    (0x21 <= u && u <= 0x2f) || (0x3a <= u && u <= 0x40) || (0x5b <= u && u <= 0x60) || (0x7b <= u
        && u <= 0x7e)
}

/// Whether a character is a control code.
pub open spec fn is_control_code(c: char) -> bool {
    let u = c as u32;
    u <= 0x1f || 0x7f <= u <= 0x9f
}

/// Whether a character is a control code.
pub fn is_control(c: char) -> (r: bool)
    ensures
        r == is_control_code(c),
{
    let u: u32 = c as u32;
    u <= 0x1f || (0x7f <= u && u <= 0x9f)
}

/// The extended grapheme clusters of a text, in order.
pub uninterp spec fn grapheme_clusters(text: Seq<char>) -> Seq<Seq<char>>;

/// Whether a text holds nothing but printable ASCII characters.
pub open spec fn is_printable(text: Seq<char>) -> bool {
    forall|i: int| 0 <= i < text.len() ==> ' ' <= #[trigger] text[i] <= '~'
}

/// The characters of a text, each by itself.
pub open spec fn one_by_one(text: Seq<char>) -> Seq<Seq<char>> {
    Seq::new(text.len(), |i: int| seq![text[i]])
}

/// `UnicodeSegmentation::graphemes`, with extended clusters: the clusters depend on the text
/// alone, none of them is empty, and one after the other they are the text. Printable ASCII
/// characters are clusters of their own.
#[verifier::external_body]
pub(crate) fn split_graphemes(text: &str) -> (r: Vec<String>)
    ensures
        texts(r@) == grapheme_clusters(text@),
        joined(texts(r@)) == text@,
        all_filled(texts(r@)),
        is_printable(text@) ==> texts(r@) == one_by_one(text@),
{
    text.graphemes(true).map(|g| g.to_string()).collect()
}

/// How many grapheme clusters a text has.
pub fn grapheme_count(text: &str) -> (r: usize)
    ensures
        r == grapheme_clusters(text@).len(),
        r <= text@.len(),
{
    let parts = split_graphemes(text);
    proof {
        lemma_joined_len(texts(parts@));
    }
    parts.len()
}

/// How many of the first `n` characters are `c`.
pub open spec fn occurrences(text: Seq<char>, c: char, n: int) -> int
    decreases n,
{
    if n <= 0 {
        0
    } else {
        occurrences(text, c, n - 1) + if text[n - 1] == c {
            1int
        } else {
            0int
        }
    }
}

/// Two texts hold what the first holds and what the second holds.
pub proof fn lemma_occurrences_concat(a: Seq<char>, b: Seq<char>, c: char, n: int)
    requires
        0 <= n <= a.len() + b.len(),
    ensures
        n <= a.len() ==> occurrences(a + b, c, n) == occurrences(a, c, n),
        n >= a.len() ==> occurrences(a + b, c, n) == occurrences(a, c, a.len() as int)
            + occurrences(b, c, n - a.len()),
    decreases n,
{
    if n > 0 {
        lemma_occurrences_concat(a, b, c, n - 1);
    }
}

/// A text without a character holds it nowhere.
pub proof fn lemma_no_occurrence(text: Seq<char>, c: char, n: int)
    requires
        0 <= n <= text.len(),
        !text.contains(c),
    ensures
        occurrences(text, c, n) == 0,
    decreases n,
{
    if n > 0 {
        lemma_no_occurrence(text, c, n - 1);
        assert(text.contains(text[n - 1]));
    }
}

/// The pieces of the first `n` characters between the separators `c`.
pub open spec fn pieces(text: Seq<char>, c: char, n: int) -> Seq<Seq<char>>
    decreases n,
{
    if n <= 0 {
        seq![Seq::empty()]
    } else {
        let before = pieces(text, c, n - 1);
        if text[n - 1] == c {
            before.push(Seq::empty())
        } else {
            before.drop_last().push(before.last().push(text[n - 1]))
        }
    }
}

/// The pieces of a text between the separators `c`: one more than there are separators.
pub open spec fn split_on(text: Seq<char>, c: char) -> Seq<Seq<char>> {
    pieces(text, c, text.len() as int)
}

/// There is one piece more than there are separators.
pub proof fn lemma_pieces_len(text: Seq<char>, c: char, n: int)
    requires
        0 <= n <= text.len(),
    ensures
        pieces(text, c, n).len() == occurrences(text, c, n) + 1,
        0 <= occurrences(text, c, n) <= n,
    decreases n,
{
    if n > 0 {
        lemma_pieces_len(text, c, n - 1);
    }
}

/// A piece is no longer than the text.
pub proof fn lemma_piece_len(text: Seq<char>, c: char, n: int, i: int)
    requires
        0 <= n <= text.len(),
        0 <= i < pieces(text, c, n).len(),
    ensures
        pieces(text, c, n)[i].len() <= n,
    decreases n,
{
    if n > 0 {
        lemma_pieces_len(text, c, n - 1);
        let before = pieces(text, c, n - 1);
        if i < before.len() {
            lemma_piece_len(text, c, n - 1, i);
        }
    }
}

/// Splits a text at every `c`.
pub fn split_at_char(text: &str, c: char) -> (r: Vec<String>)
    ensures
        texts(r@) == split_on(text@, c),
        r@.len() >= 1,
{
    let chars = chars_of(text);
    let mut out: Vec<String> = Vec::new();
    let mut current = String::new();
    let mut i: usize = 0;
    assert(texts(out@).push(current@) =~= pieces(text@, c, 0));
    while i < chars.len()
        invariant
            i <= chars@.len(),
            chars@ == text@,
            texts(out@).push(current@) == pieces(text@, c, i as int),
        decreases chars@.len() - i,
    {
        let ghost before = texts(out@).push(current@);
        assert(before.drop_last() =~= texts(out@));
        if chars[i] == c {
            let mut next = String::new();
            std::mem::swap(&mut next, &mut current);
            out.push(next);
            assert(texts(out@) =~= before);
        } else {
            current.push(chars[i]);
        }
        i += 1;
        assert(texts(out@).push(current@) =~= pieces(text@, c, i as int));
    }
    let ghost before = texts(out@).push(current@);
    out.push(current);
    assert(texts(out@) =~= before);
    out
}

} // verus!
