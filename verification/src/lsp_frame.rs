//! The frame around a message to or from a language server: a header that says how long the message
//! is, and an empty line.

use vstd::prelude::*;
use crate::bytes::{byte_len, text_len};
use crate::number::{
    decimal, law_written_number_reads_back, leading_space, lemma_decimal_digits, number_text,
    parse_number, parsed_number, trailing_end, trim_part, trimmed,
};
use crate::text::{chars_of, copy_of};

verus! {

/// The line of the header for a message of a length, with the line break behind it.
pub open spec fn length_line(len: int) -> Seq<char> {
    "Content-Length: "@ + decimal(len) + "\r\n"@
}

/// A message with its frame.
pub open spec fn framed(body: Seq<char>) -> Seq<char> {
    length_line(byte_len(body)) + "\r\n"@ + body
}

/// Puts a frame around a message.
pub fn frame_message(body: &str) -> (r: String)
    ensures
        r@ == framed(body@),
{
    let mut out = copy_of("Content-Length: ");
    out.append(number_text(text_len(body)).as_str());
    out.append("\r\n");
    out.append("\r\n");
    out.append(body);
    out
}

/// Where the first `n` characters end without the line break at their end.
pub open spec fn break_start(text: Seq<char>, n: int) -> int
    decreases n,
{
    if n > 0 && (text[n - 1] == '\r' || text[n - 1] == '\n') {
        break_start(text, n - 1)
    } else {
        n
    }
}

/// A line without the line break at its end.
pub open spec fn unbroken(line: Seq<char>) -> Seq<char> {
    line.take(break_start(line, line.len() as int))
}

/// What is left of a text behind a prefix.
pub open spec fn behind_prefix(text: Seq<char>, prefix: Seq<char>) -> Option<Seq<char>> {
    if text.len() >= prefix.len() && text.take(prefix.len() as int) == prefix {
        Some(text.skip(prefix.len() as int))
    } else {
        None
    }
}

/// The length that a line of a header gives, if any. One that is no number counts as nothing.
pub open spec fn given_length(line: Seq<char>) -> Option<usize> {
    let value = match behind_prefix(line, "Content-Length: "@) {
        Some(value) => Some(value),
        None => behind_prefix(line, "content-length: "@),
    };
    match value {
        Some(value) => match parsed_number(trimmed(value)) {
            Some(n) => Some(n),
            None => Some(0),
        },
        None => None,
    }
}

/// What one more line of a header tells: the length of the message, and whether the header ends.
pub open spec fn header_taken(length: usize, line: Seq<char>) -> (usize, bool) {
    let text = unbroken(line);
    if text.len() == 0 {
        (length, true)
    } else {
        match given_length(text) {
            Some(n) => (n, false),
            None => (length, false),
        }
    }
}

/// Whether the first characters from `0` on are a prefix.
fn has_prefix(chars: &Vec<char>, n: usize, prefix: &Vec<char>) -> (r: bool)
    requires
        n <= chars@.len(),
    ensures
        r == (n >= prefix@.len() && chars@.take(n as int).take(prefix@.len() as int) == prefix@),
{
    if n < prefix.len() {
        return false;
    }
    let ghost part = chars@.take(n as int);
    let mut i: usize = 0;
    while i < prefix.len()
        invariant
            i <= prefix@.len() <= n <= chars@.len(),
            part == chars@.take(n as int),
            forall|j: int| 0 <= j < i ==> chars@[j] == prefix@[j],
        decreases prefix@.len() - i,
    {
        if chars[i] != prefix[i] {
            assert(part.take(prefix@.len() as int)[i as int] != prefix@[i as int]);
            return false;
        }
        i += 1;
    }
    assert(part.take(prefix@.len() as int) =~= prefix@);
    true
}

/// Takes one more line of a header: the length of the message that is known then, and whether the
/// header ends.
pub fn take_header_line(content_length: usize, line: &str) -> (r: (usize, bool))
    ensures
        r == header_taken(content_length, line@),
{
    let chars = chars_of(line);
    let mut n: usize = chars.len();
    while n > 0 && (chars[n - 1] == '\r' || chars[n - 1] == '\n')
        invariant
            n <= chars@.len(),
            chars@ == line@,
            break_start(line@, line@.len() as int) == break_start(line@, n as int),
        decreases n,
    {
        n -= 1;
    }
    let ghost text = unbroken(line@);
    assert(text =~= chars@.take(n as int));
    if n == 0 {
        return (content_length, true);
    }
    let upper = chars_of("Content-Length: ");
    let lower = chars_of("content-length: ");
    let from: usize = if has_prefix(&chars, n, &upper) {
        upper.len()
    } else if has_prefix(&chars, n, &lower) {
        lower.len()
    } else {
        return (content_length, false);
    };
    let value = trim_part(&chars, from, n);
    assert(chars@.subrange(from as int, n as int) =~= text.skip(from as int));
    match parse_number(value.as_str()) {
        Some(length) => (length, false),
        None => (0, false),
    }
}

/// White space is no digit.
proof fn lemma_digits_hold_no_space(n: int)
    requires
        0 <= n,
    ensures
        trimmed(decimal(n)) == decimal(n),
        decimal(n).len() >= 1,
        decimal(n)[decimal(n).len() - 1] != '\r',
        decimal(n)[decimal(n).len() - 1] != '\n',
{
    let d = decimal(n);
    lemma_decimal_digits(n);
    assert(crate::number::digit_value(d[0]) is Some);
    assert(crate::number::digit_value(d[d.len() - 1]) is Some);
    assert(leading_space(d, 0) == 0);
    assert(trailing_end(d, 0, d.len() as int) == d.len());
    assert(trimmed(d) =~= d);
}

/// A message that is framed is read back: the header gives its length, in bytes, and ends, and the
/// message follows.
pub proof fn law_framed_message_reads_back(body: Seq<char>)
    requires
        byte_len(body) <= usize::MAX,
    ensures
        framed(body) == length_line(byte_len(body)) + "\r\n"@ + body,
        header_taken(0, length_line(byte_len(body))) == (byte_len(body) as usize, false),
        header_taken(byte_len(body) as usize, "\r\n"@) == (byte_len(body) as usize, true),
{
    reveal_strlit("Content-Length: ");
    reveal_strlit("\r\n");
    crate::bytes::lemma_byte_at_grows(body, 0, body.len() as int);
    let len = byte_len(body);
    lemma_digits_hold_no_space(len);
    law_written_number_reads_back(len as usize);
    let line = length_line(len);
    let front = "Content-Length: "@;
    let digits = decimal(len);
    let n = line.len() as int;
    assert(line[n - 1] == '\n');
    assert(line[n - 2] == '\r');
    assert(line[n - 3] == digits[digits.len() - 1]);
    reveal_with_fuel(break_start, 3);
    assert(break_start(line, n) == n - 2);
    assert(unbroken(line) =~= front + digits);
    assert((front + digits).take(front.len() as int) =~= front);
    assert((front + digits).skip(front.len() as int) =~= digits);
    let end = "\r\n"@;
    assert(end[1] == '\n' && end[0] == '\r');
    assert(break_start(end, 2) == 0);
}

/// How much of a message has been read.
#[derive(Clone, Copy, Debug, PartialEq, Eq, Structural)]
pub struct BodyReader {
    pub content_length: usize,
    pub read: usize,
}

/// What is to be done next to read a message.
#[derive(Clone, Copy, Debug, PartialEq, Eq, Structural)]
pub enum BodyStep {
    /// The message is whole.
    Done,
    /// The time for the whole message is up.
    TimedOut,
    /// Nothing more came in the time that was left.
    ChunkTimedOut,
    /// Read up to as many bytes.
    Read(usize),
}

impl BodyReader {
    /// Nothing of a message has been read. A message without a length cannot be.
    pub fn new(content_length: usize) -> (r: Option<Self>)
        ensures
            r == if content_length == 0 {
                None
            } else {
                Some(BodyReader { content_length, read: 0 })
            },
    {
        if content_length == 0 {
            None
        } else {
            Some(BodyReader { content_length, read: 0 })
        }
    }

    /// What is to be done next. `late` says that the time for the whole message is up, and
    /// `readable` that something can be read.
    pub fn step(&self, late: bool, readable: bool) -> (r: BodyStep)
        ensures
            r == if self.read >= self.content_length {
                BodyStep::Done
            } else if late {
                BodyStep::TimedOut
            } else if !readable {
                BodyStep::ChunkTimedOut
            } else {
                BodyStep::Read((self.content_length - self.read) as usize)
            },
    {
        if self.read >= self.content_length {
            BodyStep::Done
        } else if late {
            BodyStep::TimedOut
        } else if !readable {
            BodyStep::ChunkTimedOut
        } else {
            BodyStep::Read(self.content_length - self.read)
        }
    }

    /// Takes note of bytes that were read. Returns `false` where there were none, because the
    /// output has ended.
    pub fn note_read(&mut self, n: usize) -> (r: bool)
        requires
            old(self).read + n <= old(self).content_length,
        ensures
            r == (n > 0),
            *final(self) == (BodyReader { read: (old(self).read + n) as usize, ..*old(self) }),
    {
        self.read = self.read + n;
        n > 0
    }
}

} // verus!
