//! Loaded files: their text, where its lines start, and the list that holds them.

use vstd::prelude::*;
use crate::bytes::{
    byte_at, byte_len, bytes_before, char_at, chars_before, is_boundary, lemma_byte_at_grows,
    lemma_byte_at_part, lemma_char_at, len_utf8, slice, text_len,
};
use crate::text::{chars_of, copy_of};
use crate::word::{word_span, word_span_at};

verus! {

/// Stable index into the file list.
///
/// The list is append-only: files are never removed or reordered, only marked `removed`. This
/// makes the raw index permanently stable. The newtype exists to prevent accidental confusion
/// with other `usize` values.
#[derive(Clone, Copy, PartialEq, Eq, PartialOrd, Ord, Hash, Debug, Default, Structural)]
pub struct FileKey(pub usize);

/// The text of a file, and the byte offsets at which its lines start.
pub struct FileData {
    pub content: String,
    pub line_starts: Vec<usize>,
}

/// The characters at which the lines start that begin within the first `n` characters. The end
/// of the text starts no line.
pub open spec fn starts_within(text: Seq<char>, n: int) -> Seq<int>
    decreases n,
{
    if n <= 0 {
        seq![0]
    } else if text[n - 1] == '\n' && n < text.len() {
        starts_within(text, n - 1).push(n)
    } else {
        starts_within(text, n - 1)
    }
}

/// The characters at which the lines of a text start.
pub open spec fn starts_of(text: Seq<char>) -> Seq<int> {
    starts_within(text, text.len() as int)
}

/// The byte offsets of some characters.
pub open spec fn offsets_of(text: Seq<char>, places: Seq<int>) -> Seq<usize> {
    Seq::new(places.len(), |i: int| byte_at(text, places[i]) as usize)
}

/// Line `i` of a text, without the line break that ends it where another line follows.
pub open spec fn line_of(text: Seq<char>, i: int) -> Seq<char> {
    let starts = starts_of(text);
    text.subrange(
        starts[i],
        if i + 1 < starts.len() {
            starts[i + 1] - 1
        } else {
            text.len() as int
        },
    )
}

/// Line starts go up, each behind a line break.
pub proof fn lemma_starts(text: Seq<char>, n: int)
    requires
        0 <= n <= text.len(),
    ensures
        starts_within(text, n).len() >= 1,
        starts_within(text, n)[0] == 0,
        starts_within(text, n).len() <= n + 1,
        forall|i: int|
            0 <= i < starts_within(text, n).len() ==> 0 <= #[trigger] starts_within(text, n)[i]
                <= n,
        forall|i: int|
            1 <= i < starts_within(text, n).len() ==> {
                let at = #[trigger] starts_within(text, n)[i];
                0 < at < text.len() && text[at - 1] == '\n'
            },
        forall|i: int, j: int|
            0 <= i < j < starts_within(text, n).len() ==> starts_within(text, n)[i]
                < starts_within(text, n)[j],
    decreases n,
{
    if n > 0 {
        lemma_starts(text, n - 1);
    }
}

/// No line break stands within a line, but one may end the last line.
pub proof fn law_lines_hold_no_line_break(text: Seq<char>, i: int, j: int)
    requires
        0 <= i < starts_of(text).len(),
        0 <= j < line_of(text, i).len(),
        line_of(text, i)[j] == '\n',
    ensures
        i == starts_of(text).len() - 1,
        j == line_of(text, i).len() - 1,
{
    let starts = starts_of(text);
    lemma_starts(text, text.len() as int);
    let at = starts[i] + j;
    assert(text[at] == '\n');
    if at + 1 < text.len() {
        lemma_break_starts_line(text, text.len() as int, at + 1);
        let k = choose|k: int| 0 <= k < starts.len() && starts[k] == at + 1;
        if k <= i {
            if k < i {
                assert(starts[k] < starts[i]);
            }
        } else if i + 1 < starts.len() {
            if i + 1 < k {
                assert(starts[i + 1] < starts[k]);
            }
        }
    }
}

/// Behind every line break that does not end the text a line starts.
proof fn lemma_break_starts_line(text: Seq<char>, n: int, at: int)
    requires
        0 < at <= n <= text.len(),
        at < text.len(),
        text[at - 1] == '\n',
    ensures
        exists|k: int|
            0 <= k < starts_within(text, n).len() && #[trigger] starts_within(text, n)[k] == at,
    decreases n,
{
    let s = starts_within(text, n);
    if n == at {
        assert(s[s.len() - 1] == at);
    } else {
        lemma_break_starts_line(text, n - 1, at);
        let before = starts_within(text, n - 1);
        let k = choose|k: int| 0 <= k < before.len() && before[k] == at;
        assert(s[k] == at);
    }
}

/// The first `n` lines of a text, each with the line break that ends it.
pub open spec fn lines_joined(text: Seq<char>, n: int) -> Seq<char>
    decreases n,
{
    if n <= 0 {
        Seq::empty()
    } else {
        lines_joined(text, n - 1) + line_of(text, n - 1) + if n < starts_of(text).len() {
            seq!['\n']
        } else {
            Seq::empty()
        }
    }
}

/// The lines, with line breaks between them, are the text.
pub proof fn law_lines_make_the_text(text: Seq<char>)
    ensures
        lines_joined(text, starts_of(text).len() as int) == text,
{
    lemma_starts(text, text.len() as int);
    lemma_lines_make_prefix(text, starts_of(text).len() as int);
    assert(text.take(text.len() as int) =~= text);
}

proof fn lemma_lines_make_prefix(text: Seq<char>, n: int)
    requires
        0 <= n <= starts_of(text).len(),
    ensures
        lines_joined(text, n) == text.take(
            if n < starts_of(text).len() {
                starts_of(text)[n]
            } else {
                text.len() as int
            },
        ),
    decreases n,
{
    let starts = starts_of(text);
    lemma_starts(text, text.len() as int);
    if n == 0 {
        assert(text.take(0) =~= Seq::<char>::empty());
    } else {
        lemma_lines_make_prefix(text, n - 1);
        if n < starts.len() {
            assert(starts[n - 1] < starts[n]);
            assert(lines_joined(text, n) =~= text.take(starts[n]));
        } else {
            assert(lines_joined(text, n) =~= text.take(text.len() as int));
        }
    }
}

/// The character that a cursor stands on: the one that starts there, or the last one where the
/// text ends there.
pub open spec fn char_under(text: Seq<char>, cursor_byte: int) -> int {
    if cursor_byte < byte_len(text) {
        char_at(text, cursor_byte)
    } else {
        text.len() - 1
    }
}

/// The byte range of the word under a cursor.
pub open spec fn word_offsets(text: Seq<char>, cursor_byte: int) -> (usize, usize) {
    if text.len() == 0 {
        (0, 0)
    } else {
        let span = word_span(text, char_under(text, cursor_byte));
        (byte_at(text, span.0) as usize, byte_at(text, span.1) as usize)
    }
}

/// The byte range of a line.
pub open spec fn byte_range_of_line(text: Seq<char>, line: int) -> (usize, usize) {
    let start = starts_of(text)[line];
    (byte_at(text, start) as usize, byte_at(text, start + line_of(text, line).len()) as usize)
}

impl FileData {
    /// The line starts are those of the text.
    pub open spec fn wf(&self) -> bool {
        &&& byte_len(self.content@) <= usize::MAX
        &&& self.line_starts@ == offsets_of(self.content@, starts_of(self.content@))
    }

    /// The data of a file with the text `content`.
    pub fn new(content: String) -> (r: FileData)
        ensures
            r.wf(),
            r.content@ == content@,
    {
        let line_starts = compute_line_starts(content.as_str());
        let _ = text_len(content.as_str());
        FileData { content, line_starts }
    }

    /// The text of line `idx`, without the line break behind it. A line that is not there reads
    /// as the whole text.
    pub fn line(&self, idx: usize) -> (r: &str)
        requires
            self.wf(),
        ensures
            r@ == if idx < self.line_starts@.len() {
                line_of(self.content@, idx as int)
            } else {
                self.content@
            },
    {
        let ghost text = self.content@;
        let ghost starts = starts_of(text);
        let len: usize = text_len(self.content.as_str());
        proof {
            lemma_starts(text, text.len() as int);
            lemma_char_at(text, text.len() as int);
            lemma_char_at(text, 0);
            assert(text.subrange(0, text.len() as int) =~= text);
        }
        if idx >= self.line_starts.len() {
            return slice(self.content.as_str(), 0, len);
        }
        let start: usize = self.line_starts[idx];
        proof {
            lemma_char_at(text, starts[idx as int]);
            lemma_byte_at_grows(text, starts[idx as int], text.len() as int);
            lemma_byte_at_grows(text, 0, starts[idx as int]);
        }
        if idx < self.line_starts.len() - 1 {
            let next: usize = self.line_starts[idx + 1];
            proof {
                let at = starts[idx + 1];
                assert(starts[idx as int] < at);
                lemma_byte_at_grows(text, at, text.len() as int);
                lemma_byte_at_grows(text, starts[idx as int], at - 1);
                assert(text[at - 1] == '\n');
                assert(byte_at(text, at) == byte_at(text, at - 1) + 1);
                lemma_char_at(text, at - 1);
            }
            slice(self.content.as_str(), start, next - 1)
        } else {
            slice(self.content.as_str(), start, len)
        }
    }

    /// The text between two byte offsets, in either order, or `None` where they are the same.
    pub fn extract_text(&self, start_byte: usize, end_byte: usize) -> (r: Option<String>)
        requires
            is_boundary(self.content@, start_byte as int),
            is_boundary(self.content@, end_byte as int),
        ensures
            ({
                let a = char_at(self.content@, start_byte as int);
                let b = char_at(self.content@, end_byte as int);
                match r {
                    None => start_byte == end_byte,
                    Some(t) => start_byte != end_byte && t@ == if start_byte < end_byte {
                        self.content@.subrange(a, b)
                    } else {
                        self.content@.subrange(b, a)
                    },
                }
            }),
    {
        let (from, to) = if start_byte > end_byte {
            (end_byte, start_byte)
        } else {
            (start_byte, end_byte)
        };
        let part = slice(self.content.as_str(), from, to);
        if part.is_empty() {
            proof {
                assert(byte_len(part@) == 0);
            }
            None
        } else {
            proof {
                lemma_byte_at_grows(part@, part@.len() as int, part@.len() as int);
            }
            Some(copy_of(part))
        }
    }

    /// The byte offset in line `line_idx` of its `char_idx`-th character, or the length of the
    /// line where it has no such character.
    pub fn char_to_byte(&self, line_idx: usize, char_idx: usize) -> (r: usize)
        requires
            self.wf(),
        ensures
            ({
                let line = if line_idx < self.line_starts@.len() {
                    line_of(self.content@, line_idx as int)
                } else {
                    self.content@
                };
                r == byte_at(
                    line,
                    if char_idx < line.len() {
                        char_idx as int
                    } else {
                        line.len() as int
                    },
                )
            }),
    {
        let s = self.line(line_idx);
        let _ = text_len(s);
        let chars = chars_of(s);
        let n: usize = if char_idx < chars.len() {
            char_idx
        } else {
            chars.len()
        };
        bytes_before(&chars, n)
    }

    /// The byte range of the "word" under `cursor_byte`: the run of white space there, or the URL
    /// there, or the run of letters, numbers and `_`, or the single character. A cursor at the end
    /// of the text stands on its last character.
    pub fn word_bounds(&self, cursor_byte: usize) -> (r: (usize, usize))
        requires
            is_boundary(self.content@, cursor_byte as int),
        ensures
            r == word_offsets(self.content@, cursor_byte as int),
            is_boundary(self.content@, r.0 as int),
            is_boundary(self.content@, r.1 as int),
    {
        if self.content.as_str().is_empty() {
            return (0, 0);
        }
        let ghost text = self.content@;
        let len: usize = text_len(self.content.as_str());
        let chars = chars_of(self.content.as_str());
        let k: usize = if cursor_byte < len {
            chars_before(&chars, cursor_byte)
        } else {
            chars.len() - 1
        };
        proof {
            lemma_byte_at_grows(text, char_at(text, cursor_byte as int), text.len() as int);
        }
        let (start, end) = word_span_at(&chars, k);
        proof {
            lemma_char_at(text, start as int);
            lemma_char_at(text, end as int);
        }
        (bytes_before(&chars, start), bytes_before(&chars, end))
    }

    /// The byte range of line `line_idx`.
    pub fn line_bounds(&self, line_idx: usize) -> (r: (usize, usize))
        requires
            self.wf(),
            line_idx < self.line_starts@.len(),
        ensures
            r == byte_range_of_line(self.content@, line_idx as int),
            r.0 <= r.1,
            is_boundary(self.content@, r.0 as int),
            is_boundary(self.content@, r.1 as int),
    {
        let ghost text = self.content@;
        let ghost starts = starts_of(text);
        let start: usize = self.line_starts[line_idx];
        let line = self.line(line_idx);
        let len: usize = text_len(line);
        proof {
            lemma_starts(text, text.len() as int);
            let from = starts[line_idx as int];
            let to = if line_idx + 1 < starts.len() {
                starts[line_idx + 1] - 1
            } else {
                text.len() as int
            };
            if line_idx + 1 < starts.len() {
                assert(starts[line_idx as int] < starts[line_idx + 1]);
            }
            lemma_byte_at_part(text, from, to, to - from);
            lemma_byte_at_grows(text, to, text.len() as int);
            lemma_byte_at_grows(text, 0, from);
            lemma_byte_at_grows(text, from, to);
            lemma_char_at(text, from);
            lemma_char_at(text, to);
        }
        (start, start + len)
    }
}

/// The byte offsets at which the lines of a text start.
pub fn compute_line_starts(content: &str) -> (r: Vec<usize>)
    ensures
        r@ == offsets_of(content@, starts_of(content@)),
{
    let ghost text = content@;
    let len: usize = text_len(content);
    let chars = chars_of(content);
    let mut line_starts: Vec<usize> = Vec::new();
    line_starts.push(0);
    let mut i: usize = 0;
    let mut at: usize = 0;
    assert(line_starts@ =~= offsets_of(text, starts_within(text, 0)));
    while i < chars.len()
        invariant
            i <= chars@.len(),
            chars@ == text,
            at == byte_at(text, i as int),
            byte_len(text) <= usize::MAX,
            line_starts@ == offsets_of(text, starts_within(text, i as int)),
        decreases chars@.len() - i,
    {
        proof {
            lemma_byte_at_grows(text, i + 1, text.len() as int);
        }
        at = at + len_utf8(chars[i]);
        if chars[i] == '\n' && i < chars.len() - 1 {
            line_starts.push(at);
        }
        i += 1;
        assert(line_starts@ =~= offsets_of(text, starts_within(text, i as int)));
    }
    line_starts
}

} // verus!
