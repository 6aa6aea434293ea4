//! The tokens of a file, from the numbers that a language server sends.

use vstd::prelude::*;
use crate::bytes::{
    byte_at, byte_len, bytes_before, is_boundary, lemma_byte_at_grows, lemma_byte_at_prefix,
    lemma_char_at, len_utf8, text_len,
};
use crate::loader::{FileData, lemma_starts, line_of, starts_of};
use crate::state::{ColoredLine, ColoredSpan, File, colors_of, offset_fits};
use crate::text::chars_of;

verus! {

/// A token as a language server sends it: where it starts, counted from the token before, how long
/// it is, in UTF-16 code units, and its type, as an index into the server's legend.
#[derive(Clone, Copy, Debug, PartialEq, Eq, Structural)]
pub struct SemanticToken {
    pub delta_line: u32,
    pub delta_start: u32,
    pub length: u32,
    pub token_type: u32,
}

/// How many lines a text has. An empty text has none, and a line break at the end starts none.
pub open spec fn line_count(text: Seq<char>) -> int {
    if text.len() == 0 {
        0
    } else {
        starts_of(text).len() as int
    }
}

/// How many characters of a line come before its line break, which may be a carriage return and a
/// line feed. `broken` says that a line feed follows.
pub open spec fn length_without_break(line: Seq<char>, broken: bool) -> int {
    let n = line.len() as int;
    if broken {
        if n > 0 && line[n - 1] == '\r' {
            n - 1
        } else {
            n
        }
    } else if n > 0 && line[n - 1] == '\n' {
        if n > 1 && line[n - 2] == '\r' {
            n - 2
        } else {
            n - 1
        }
    } else {
        n
    }
}

/// Line `i` of a text, without the line break that ends it.
pub open spec fn text_line(text: Seq<char>, i: int) -> Seq<char> {
    let line = line_of(text, i);
    line.take(length_without_break(line, i + 1 < starts_of(text).len()))
}

/// How many UTF-16 code units a character takes.
pub open spec fn utf16_width(c: char) -> int {
    if c as u32 >= 0x10000 {
        2
    } else {
        1
    }
}

/// How many UTF-16 code units the first `n` characters take.
pub open spec fn utf16_at(text: Seq<char>, n: int) -> int
    decreases n,
{
    if n <= 0 {
        0
    } else {
        utf16_at(text, n - 1) + utf16_width(text[n - 1])
    }
}

/// The first character from the `i`-th on that starts at or behind a UTF-16 offset.
pub open spec fn char_from_utf16(text: Seq<char>, offset: int, i: int) -> int
    decreases text.len() - i,
{
    if i >= text.len() {
        text.len() as int
    } else if utf16_at(text, i) >= offset {
        i
    } else {
        char_from_utf16(text, offset, i + 1)
    }
}

/// The byte offset of the first character that starts at or behind a UTF-16 offset.
pub open spec fn byte_of_utf16(text: Seq<char>, offset: int) -> int {
    byte_at(text, char_from_utf16(text, offset, 0))
}

/// A character that is found lies within the text.
proof fn lemma_char_from_utf16(text: Seq<char>, offset: int, i: int)
    requires
        0 <= i <= text.len(),
    ensures
        i <= char_from_utf16(text, offset, i) <= text.len(),
    decreases text.len() - i,
{
    if i < text.len() {
        lemma_char_from_utf16(text, offset, i + 1);
    }
}

/// The byte offset of the first character that starts at or behind a UTF-16 offset.
fn find_utf16(chars: &Vec<char>, offset: u128) -> (r: usize)
    requires
        byte_len(chars@) <= usize::MAX,
    ensures
        r == byte_of_utf16(chars@, offset as int),
{
    let mut units: u128 = 0;
    let mut at: usize = 0;
    let mut i: usize = 0;
    while i < chars.len()
        invariant
            i <= chars@.len(),
            byte_len(chars@) <= usize::MAX,
            units == utf16_at(chars@, i as int),
            units <= 2 * i,
            at == byte_at(chars@, i as int),
            char_from_utf16(chars@, offset as int, 0) == char_from_utf16(
                chars@,
                offset as int,
                i as int,
            ),
        decreases chars@.len() - i,
    {
        if units >= offset {
            return at;
        }
        proof {
            lemma_byte_at_grows(chars@, i + 1, chars@.len() as int);
        }
        let c: char = chars[i];
        let code: u32 = c as u32;
        units = units + if code >= 0x10000 {
            2u128
        } else {
            1u128
        };
        at = at + len_utf8(c);
        i += 1;
    }
    at
}

/// The byte offset of the first character that starts at or behind a UTF-16 offset.
pub fn utf16_to_byte(s: &str, utf16_offset: usize) -> (r: usize)
    ensures
        r == byte_of_utf16(s@, utf16_offset as int),
{
    let _ = text_len(s);
    find_utf16(&chars_of(s), utf16_offset as u128)
}

/// Where the `n`-th token starts: its line, and its UTF-16 offset in the line.
pub open spec fn token_start(data: Seq<SemanticToken>, n: int) -> (int, int)
    decreases n,
{
    if n <= 0 {
        (0, 0)
    } else {
        let (line, start) = token_start(data, n - 1);
        let token = data[n - 1];
        if token.delta_line > 0 {
            (line + token.delta_line, token.delta_start as int)
        } else {
            (line, start + token.delta_start)
        }
    }
}

/// The names of token types.
pub open spec fn type_names(types: Seq<&'static str>) -> Seq<Seq<char>> {
    Seq::new(types.len(), |i: int| types[i]@)
}

/// The name of a token type, or nothing where the legend does not hold it.
pub open spec fn token_type_name(types: Seq<Seq<char>>, idx: int) -> Seq<char> {
    if idx < types.len() {
        types[idx]
    } else {
        ""@
    }
}

/// The stretch of a line that the `n`-th token covers.
pub open spec fn token_span(
    line: Seq<char>,
    types: Seq<Seq<char>>,
    data: Seq<SemanticToken>,
    n: int,
) -> (usize, usize, Seq<char>) {
    let start = token_start(data, n).1;
    (
        byte_of_utf16(line, start) as usize,
        byte_of_utf16(line, start + data[n - 1].length) as usize,
        token_type_name(types, data[n - 1].token_type as int),
    )
}

/// Whether the `n`-th token is on a line of the text, and not empty there.
pub open spec fn is_on_line(
    text: Seq<char>,
    types: Seq<Seq<char>>,
    data: Seq<SemanticToken>,
    n: int,
    i: int,
) -> bool {
    let span = token_span(text_line(text, i), types, data, n);
    token_start(data, n).0 == i && span.0 < span.1
}

/// The stretches of a line that the first `n` tokens cover.
pub open spec fn spans_on(
    text: Seq<char>,
    types: Seq<Seq<char>>,
    data: Seq<SemanticToken>,
    i: int,
    n: int,
) -> Seq<(usize, usize, Seq<char>)>
    decreases n,
{
    if n <= 0 {
        Seq::empty()
    } else if is_on_line(text, types, data, n, i) {
        spans_on(text, types, data, i, n - 1).push(
            token_span(text_line(text, i), types, data, n),
        )
    } else {
        spans_on(text, types, data, i, n - 1)
    }
}

/// Where the first `n` stretches of a line end.
pub open spec fn end_of(spans: Seq<(usize, usize, Seq<char>)>, n: int) -> usize {
    if n <= 0 {
        0
    } else {
        spans[n - 1].1
    }
}

/// The first `n` stretches of a line, with what lies between them.
pub open spec fn filled(spans: Seq<(usize, usize, Seq<char>)>, n: int) -> Seq<
    (usize, usize, Seq<char>),
>
    decreases n,
{
    if n <= 0 {
        Seq::empty()
    } else {
        let pos = end_of(spans, n - 1);
        let span = spans[n - 1];
        (if pos < span.0 {
            filled(spans, n - 1).push((pos, span.0, ""@))
        } else {
            filled(spans, n - 1)
        }).push(span)
    }
}

/// The stretches of a line with a length, with what lies between and behind them. A line without
/// tokens is one stretch.
pub open spec fn line_colors(spans: Seq<(usize, usize, Seq<char>)>, len: usize) -> Seq<
    (usize, usize, Seq<char>),
> {
    let n = spans.len() as int;
    if n == 0 {
        seq![(0usize, len, ""@)]
    } else if end_of(spans, n) < len {
        filled(spans, n).push((end_of(spans, n), len, ""@))
    } else {
        filled(spans, n)
    }
}

/// The tokens of all lines of a text.
pub open spec fn decoded(text: Seq<char>, types: Seq<Seq<char>>, data: Seq<SemanticToken>) -> Seq<
    Seq<(usize, usize, Seq<char>)>,
> {
    Seq::new(
        line_count(text) as nat,
        |i: int|
            line_colors(
                spans_on(text, types, data, i, data.len() as int),
                byte_len(text_line(text, i)) as usize,
            ),
    )
}

/// What some stretches of a line stand for.
pub open spec fn spans_of(line: Seq<ColoredSpan>) -> Seq<(usize, usize, Seq<char>)> {
    Seq::new(line.len(), |j: int| (line[j].0, line[j].1, line[j].2@))
}

/// The lines of a text, without the line breaks that end them.
fn text_lines(data: &FileData) -> (r: Vec<Vec<char>>)
    requires
        data.wf(),
    ensures
        r@.len() == line_count(data.content@),
        forall|i: int|
            0 <= i < r@.len() ==> (#[trigger] r@[i])@ == text_line(data.content@, i) && byte_len(
                r@[i]@,
            ) <= usize::MAX,
{
    let ghost text = data.content@;
    let mut out: Vec<Vec<char>> = Vec::new();
    proof {
        lemma_starts(text, text.len() as int);
    }
    if text_len(data.content.as_str()) == 0 {
        return out;
    }
    let n: usize = data.line_starts.len();
    let mut i: usize = 0;
    while i < n
        invariant
            i <= n == data.line_starts@.len(),
            data.wf(),
            text == data.content@,
            n == starts_of(text).len(),
            out@.len() == i,
            forall|j: int|
                0 <= j < i ==> (#[trigger] out@[j])@ == text_line(text, j) && byte_len(out@[j]@)
                    <= usize::MAX,
        decreases n - i,
    {
        let line = data.line(i);
        let _ = text_len(line);
        let mut chars = chars_of(line);
        let ghost whole = chars@;
        let len: usize = chars.len();
        let keep: usize = if i + 1 < n {
            if len > 0 && chars[len - 1] == '\r' {
                len - 1
            } else {
                len
            }
        } else if len > 0 && chars[len - 1] == '\n' {
            if len > 1 && chars[len - 2] == '\r' {
                len - 2
            } else {
                len - 1
            }
        } else {
            len
        };
        chars.truncate(keep);
        proof {
            assert(chars@ =~= whole.take(keep as int));
            lemma_byte_at_prefix(chars@, whole, keep as int);
            lemma_byte_at_grows(whole, keep as int, whole.len() as int);
        }
        out.push(chars);
        i += 1;
    }
    out
}

/// The stretches of a line, with what lies between and behind them.
fn fill_line(tokens: &Vec<ColoredSpan>, len: usize) -> (r: ColoredLine)
    ensures
        spans_of(r@) == line_colors(spans_of(tokens@), len),
{
    let ghost spans = spans_of(tokens@);
    let mut line: ColoredLine = Vec::new();
    if tokens.len() == 0 {
        line.push((0, len, ""));
        assert(spans_of(line@) =~= line_colors(spans, len));
        return line;
    }
    let mut pos: usize = 0;
    let mut k: usize = 0;
    assert(spans_of(line@) =~= filled(spans, 0));
    while k < tokens.len()
        invariant
            k <= tokens@.len(),
            spans == spans_of(tokens@),
            pos == end_of(spans, k as int),
            spans_of(line@) == filled(spans, k as int),
        decreases tokens@.len() - k,
    {
        let ghost before = line@;
        let (start, end, name) = tokens[k];
        assert(spans[k as int] == (start, end, name@));
        if pos < start {
            line.push((pos, start, ""));
            assert(spans_of(line@) =~= spans_of(before).push((pos, start, ""@)));
        }
        let ghost mid = line@;
        line.push((start, end, name));
        assert(spans_of(line@) =~= spans_of(mid).push((start, end, name@)));
        pos = end;
        k += 1;
    }
    let ghost before = line@;
    if pos < len {
        line.push((pos, len, ""));
        assert(spans_of(line@) =~= spans_of(before).push((pos, len, ""@)));
    }
    line
}

/// Where tokens start does not grow beyond what their number allows.
proof fn lemma_token_start(data: Seq<SemanticToken>, n: int)
    requires
        0 <= n <= data.len(),
    ensures
        0 <= token_start(data, n).0 <= n * 0xffff_ffff,
        0 <= token_start(data, n).1 <= n * 0xffff_ffff,
    decreases n,
{
    if n > 0 {
        lemma_token_start(data, n - 1);
        assert((n - 1) * 0xffff_ffff + 0xffff_ffff == n * 0xffff_ffff);
    }
}

/// Turns what a language server sent into the tokens of each line. `token_types` is the server's
/// legend.
pub fn decode_tokens(
    data: &Vec<SemanticToken>,
    content: &FileData,
    token_types: &Vec<&'static str>,
) -> (r: Vec<ColoredLine>)
    requires
        content.wf(),
    ensures
        colors_of(r@) == decoded(content.content@, type_names(token_types@), data@),
{
    let ghost text = content.content@;
    let ghost types = type_names(token_types@);
    let lines = text_lines(content);
    let count: usize = lines.len();
    let mut on_line: Vec<Vec<ColoredSpan>> = Vec::new();
    let mut i: usize = 0;
    while i < count
        invariant
            i <= count,
            on_line@.len() == i,
            forall|j: int| 0 <= j < i ==> (#[trigger] on_line@[j])@.len() == 0,
        decreases count - i,
    {
        on_line.push(Vec::new());
        i += 1;
    }
    assert forall|j: int| 0 <= j < count implies spans_of((#[trigger] on_line@[j])@) == spans_on(
        text,
        types,
        data@,
        j,
        0,
    ) by {
        assert(spans_of(on_line@[j]@) =~= Seq::empty());
    }
    let mut abs_line: u128 = 0;
    let mut abs_char: u128 = 0;
    let mut n: usize = 0;
    while n < data.len()
        invariant
            n <= data@.len(),
            types == type_names(token_types@),
            count == lines@.len() == on_line@.len(),
            (abs_line as int, abs_char as int) == token_start(data@, n as int),
            forall|j: int|
                0 <= j < count ==> (#[trigger] lines@[j])@ == text_line(text, j) && byte_len(
                    lines@[j]@,
                ) <= usize::MAX,
            forall|j: int|
                0 <= j < count ==> spans_of((#[trigger] on_line@[j])@) == spans_on(
                    text,
                    types,
                    data@,
                    j,
                    n as int,
                ),
        decreases data@.len() - n,
    {
        let token = data[n];
        proof {
            lemma_token_start(data@, n as int);
            lemma_token_start(data@, n + 1);
            assert(n * 0xffff_ffff <= usize::MAX * 0xffff_ffff) by (nonlinear_arith)
                requires
                    n <= usize::MAX,
            ;
        }
        if token.delta_line > 0 {
            abs_line = abs_line + token.delta_line as u128;
            abs_char = token.delta_start as u128;
        } else {
            abs_char = abs_char + token.delta_start as u128;
        }
        n += 1;
        let ghost before = on_line@;
        if abs_line < count as u128 {
            let at: usize = abs_line as usize;
            let idx: usize = token.token_type as usize;
            let name: &'static str = if idx < token_types.len() {
                token_types[idx]
            } else {
                ""
            };
            let line = &lines[at];
            assert(line@ == text_line(text, at as int));
            let start: usize = find_utf16(line, abs_char);
            let end: usize = find_utf16(line, abs_char + token.length as u128);
            let ghost span = token_span(line@, types, data@, n as int);
            assert(span == (start, end, name@));
            if start < end {
                let ghost spans = spans_of(on_line@[at as int]@);
                on_line[at].push((start, end, name));
                assert(spans_of(on_line@[at as int]@) =~= spans.push(span));
            }
        }
        assert forall|j: int| 0 <= j < count implies spans_of((#[trigger] on_line@[j])@)
            == spans_on(text, types, data@, j, n as int) by {
            assert(spans_of(before[j]@) == spans_on(text, types, data@, j, n - 1));
        }
    }
    let mut out: Vec<ColoredLine> = Vec::new();
    let mut i: usize = 0;
    while i < count
        invariant
            i <= count,
            count == lines@.len() == on_line@.len(),
            n == data@.len(),
            forall|j: int|
                0 <= j < count ==> (#[trigger] lines@[j])@ == text_line(text, j) && byte_len(
                    lines@[j]@,
                ) <= usize::MAX,
            forall|j: int|
                0 <= j < count ==> spans_of((#[trigger] on_line@[j])@) == spans_on(
                    text,
                    types,
                    data@,
                    j,
                    n as int,
                ),
            out@.len() == i,
            forall|j: int|
                0 <= j < i ==> spans_of((#[trigger] out@[j])@) == line_colors(
                    spans_on(text, types, data@, j, n as int),
                    byte_len(text_line(text, j)) as usize,
                ),
        decreases count - i,
    {
        let len: usize = bytes_before(&lines[i], lines[i].len());
        out.push(fill_line(&on_line[i], len));
        i += 1;
    }
    proof {
        let goal = decoded(text, types, data@);
        assert forall|j: int| 0 <= j < count implies colors_of(out@)[j] == #[trigger] goal[j] by {
            assert(colors_of(out@)[j] =~= spans_of(out@[j]@));
        }
        assert(colors_of(out@) =~= goal);
    }
    out
}

/// Whether stretches of a line start and end at characters.
pub open spec fn at_characters(spans: Seq<(usize, usize, Seq<char>)>, line: Seq<char>) -> bool {
    forall|k: int|
        0 <= k < spans.len() ==> is_boundary(line, (#[trigger] spans[k]).0 as int) && is_boundary(
            line,
            spans[k].1 as int,
        )
}

/// The stretches that tokens cover start and end at characters.
proof fn lemma_spans_at_characters(
    text: Seq<char>,
    types: Seq<Seq<char>>,
    data: Seq<SemanticToken>,
    i: int,
    n: int,
)
    requires
        0 <= n <= data.len(),
        byte_len(text_line(text, i)) <= usize::MAX,
    ensures
        at_characters(spans_on(text, types, data, i, n), text_line(text, i)),
    decreases n,
{
    if n > 0 {
        lemma_spans_at_characters(text, types, data, i, n - 1);
        let line = text_line(text, i);
        let start = token_start(data, n).1;
        let end = start + data[n - 1].length;
        lemma_char_from_utf16(line, start, 0);
        lemma_char_from_utf16(line, end, 0);
        lemma_char_at(line, char_from_utf16(line, start, 0));
        lemma_char_at(line, char_from_utf16(line, end, 0));
        lemma_byte_at_grows(line, char_from_utf16(line, start, 0), line.len() as int);
        lemma_byte_at_grows(line, char_from_utf16(line, end, 0), line.len() as int);
        lemma_byte_at_grows(line, 0, char_from_utf16(line, start, 0));
        lemma_byte_at_grows(line, 0, char_from_utf16(line, end, 0));
    }
}

/// What lies between stretches starts and ends at characters too.
proof fn lemma_filled_at_characters(
    spans: Seq<(usize, usize, Seq<char>)>,
    line: Seq<char>,
    n: int,
)
    requires
        0 <= n <= spans.len(),
        at_characters(spans, line),
    ensures
        at_characters(filled(spans, n), line),
        is_boundary(line, end_of(spans, n) as int),
    decreases n,
{
    lemma_char_at(line, 0);
    if n > 0 {
        lemma_filled_at_characters(spans, line, n - 1);
        assert(is_boundary(line, spans[n - 1].0 as int));
    }
}

/// A character of a line without its line break is a character of the line.
proof fn lemma_boundary_of_line(text: Seq<char>, i: int, byte: int)
    requires
        0 <= i < starts_of(text).len(),
        is_boundary(text_line(text, i), byte),
    ensures
        is_boundary(line_of(text, i), byte),
{
    let line = line_of(text, i);
    let part = text_line(text, i);
    lemma_starts(text, text.len() as int);
    let k = choose|k: int| 0 <= k <= part.len() && #[trigger] byte_at(part, k) == byte;
    lemma_byte_at_prefix(part, line, k);
    assert(byte_at(line, k) == byte);
}

/// The tokens of a text start and end at characters of its lines, also where only the first lines
/// have theirs.
pub proof fn law_decoded_tokens_fit(
    file: File,
    types: Seq<Seq<char>>,
    data: Seq<SemanticToken>,
    lines: int,
)
    requires
        byte_len(file.text) <= usize::MAX,
        0 <= lines <= line_count(file.text),
    ensures
        (File { colors: decoded(file.text, types, data).take(lines), ..file }).colors_fit(),
{
    let text = file.text;
    let colors = decoded(text, types, data);
    let after = File { colors: colors.take(lines), ..file };
    lemma_starts(text, text.len() as int);
    assert forall|i: int, j: int|
        #![trigger after.colors[i][j]]
        0 <= i < after.colors.len() && i < starts_of(text).len() && 0 <= j
            < after.colors[i].len() implies offset_fits(
        line_of(text, i),
        after.colors[i][j].0 as int,
    ) && offset_fits(line_of(text, i), after.colors[i][j].1 as int) by {
        let line = text_line(text, i);
        let whole = line_of(text, i);
        let spans = spans_on(text, types, data, i, data.len() as int);
        lemma_byte_at_prefix(line, whole, line.len() as int);
        lemma_byte_at_grows(whole, line.len() as int, whole.len() as int);
        lemma_line_len(text, i);
        lemma_spans_at_characters(text, types, data, i, data.len() as int);
        lemma_filled_at_characters(spans, line, spans.len() as int);
        lemma_char_at(line, 0);
        lemma_char_at(line, line.len() as int);
        lemma_byte_at_grows(line, 0, line.len() as int);
        let shown = line_colors(spans, byte_len(line) as usize);
        assert(at_characters(shown, line));
        assert(after.colors[i] == shown);
        lemma_boundary_of_line(text, i, shown[j].0 as int);
        lemma_boundary_of_line(text, i, shown[j].1 as int);
    }
}

/// A line takes no more bytes than its text.
proof fn lemma_line_len(text: Seq<char>, i: int)
    requires
        0 <= i < starts_of(text).len(),
    ensures
        byte_len(line_of(text, i)) <= byte_len(text),
{
    lemma_starts(text, text.len() as int);
    let starts = starts_of(text);
    let from = starts[i];
    let to = if i + 1 < starts.len() {
        starts[i + 1] - 1
    } else {
        text.len() as int
    };
    if i + 1 < starts.len() {
        assert(starts[i] < starts[i + 1]);
    }
    crate::bytes::lemma_byte_at_part(text, from, to, to - from);
    lemma_byte_at_grows(text, to, text.len() as int);
    lemma_byte_at_grows(text, 0, from);
}

/// Whether stretches follow each other without gap or overlap, from a start to an end.
pub open spec fn is_chain(spans: Seq<(usize, usize, Seq<char>)>, from: usize, to: usize) -> bool {
    &&& spans.len() > 0
    &&& spans[0].0 == from
    &&& spans[spans.len() - 1].1 == to
    &&& forall|k: int| 1 <= k < spans.len() ==> (#[trigger] spans[k]).0 == spans[k - 1].1
}

/// The first stretches of a line, with what lies between them, follow each other.
proof fn lemma_filled_is_chain(spans: Seq<(usize, usize, Seq<char>)>, n: int)
    requires
        0 < n <= spans.len(),
        forall|k: int| 1 <= k < spans.len() ==> spans[k - 1].1 <= (#[trigger] spans[k]).0,
    ensures
        is_chain(filled(spans, n), 0, end_of(spans, n)),
    decreases n,
{
    if n > 1 {
        lemma_filled_is_chain(spans, n - 1);
        assert(spans[n - 2].1 <= spans[n - 1].0);
    } else {
        assert(filled(spans, 0) =~= Seq::empty());
    }
}

/// The stretches of a line cover all of it, each character once, where the tokens come in order and
/// do not overlap.
pub proof fn law_colors_cover_line(spans: Seq<(usize, usize, Seq<char>)>, len: usize)
    requires
        forall|k: int| 1 <= k < spans.len() ==> spans[k - 1].1 <= (#[trigger] spans[k]).0,
        end_of(spans, spans.len() as int) <= len,
    ensures
        is_chain(line_colors(spans, len), 0, len),
{
    if spans.len() > 0 {
        lemma_filled_is_chain(spans, spans.len() as int);
    }
}

/// A token with the place where it stands: its line, where it starts in the line and how long it
/// is, in UTF-16 code units, and its type.
pub struct PlacedToken {
    pub line: int,
    pub start: int,
    pub length: int,
    pub token_type: int,
}

/// Whether a token tells its place as the protocol has it: its line is counted from the line of the
/// token before, or from the first line, and its start from the start of the token before where
/// that is on the same line, and else from the start of the line.
pub open spec fn tells_place(
    token: SemanticToken,
    place: PlacedToken,
    before: Option<PlacedToken>,
) -> bool {
    let (line, start) = match before {
        Some(other) => (other.line, other.start),
        None => (0, 0),
    };
    &&& place.line >= line
    &&& place.start >= 0
    &&& place.line == line + token.delta_line
    &&& place.line > line ==> place.start == token.delta_start
    &&& place.line == line ==> place.start == start + token.delta_start
    &&& place.length == token.length
    &&& place.token_type == token.token_type
}

/// Whether tokens are sent as the protocol has it.
pub open spec fn are_sent_as(places: Seq<PlacedToken>, data: Seq<SemanticToken>) -> bool {
    &&& data.len() == places.len()
    &&& forall|i: int|
        0 <= i < data.len() ==> tells_place(
            #[trigger] data[i],
            places[i],
            if i == 0 {
                None
            } else {
                Some(places[i - 1])
            },
        )
}

/// What a token makes of its line: the characters from UTF-16 offset to UTF-16 offset, by their
/// bytes, have the name of its type.
pub open spec fn is_span_of(
    span: (usize, usize, Seq<char>),
    place: PlacedToken,
    line: Seq<char>,
    types: Seq<Seq<char>>,
) -> bool {
    &&& exists|a: int|
        #![trigger byte_at(line, a)]
        is_first_at(line, place.start, a) && span.0 == byte_at(line, a)
    &&& exists|b: int|
        #![trigger byte_at(line, b)]
        is_first_at(line, place.start + place.length, b) && span.1 == byte_at(line, b)
    &&& place.token_type < types.len() ==> span.2 == types[place.token_type]
    &&& place.token_type >= types.len() ==> span.2.len() == 0
}

/// Whether a character, or the end of a line, is the first that does not start before a UTF-16
/// offset.
pub open spec fn is_first_at(line: Seq<char>, offset: int, a: int) -> bool {
    &&& 0 <= a <= line.len()
    &&& a < line.len() ==> utf16_at(line, a) >= offset
    &&& forall|k: int| 0 <= k < a ==> #[trigger] utf16_at(line, k) < offset
}

/// Whether a stretch of a line is that of one of the first `n` tokens.
pub open spec fn has_place(
    span: (usize, usize, Seq<char>),
    places: Seq<PlacedToken>,
    n: int,
    line: Seq<char>,
    types: Seq<Seq<char>>,
    i: int,
) -> bool {
    exists|m: int|
        0 <= m < n && (#[trigger] places[m]).line == i && is_span_of(span, places[m], line, types)
}

/// Offsets are found where they are.
proof fn lemma_first_at(text: Seq<char>, offset: int, i: int)
    requires
        0 <= i <= text.len(),
        forall|k: int| 0 <= k < i ==> #[trigger] utf16_at(text, k) < offset,
    ensures
        is_first_at(text, offset, char_from_utf16(text, offset, i)),
    decreases text.len() - i,
{
    if i < text.len() && utf16_at(text, i) < offset {
        lemma_first_at(text, offset, i + 1);
    }
}

/// Tokens start where they were said to.
proof fn lemma_start_is_sent(places: Seq<PlacedToken>, data: Seq<SemanticToken>, n: int)
    requires
        are_sent_as(places, data),
        0 < n <= data.len(),
    ensures
        token_start(data, n) == (places[n - 1].line, places[n - 1].start),
    decreases n,
{
    assert(tells_place(
        data[n - 1],
        places[n - 1],
        if n == 1 {
            None
        } else {
            Some(places[n - 2])
        },
    ));
    if n > 1 {
        lemma_start_is_sent(places, data, n - 1);
    } else {
        assert(token_start(data, 0) == (0int, 0int));
    }
}

/// The stretch of a token is that of its place.
proof fn lemma_span_of_place(
    line: Seq<char>,
    types: Seq<Seq<char>>,
    places: Seq<PlacedToken>,
    data: Seq<SemanticToken>,
    n: int,
)
    requires
        are_sent_as(places, data),
        0 < n <= data.len(),
        byte_len(line) <= usize::MAX,
    ensures
        is_span_of(token_span(line, types, data, n), places[n - 1], line, types),
{
    reveal_strlit("");
    let place = places[n - 1];
    let token = data[n - 1];
    assert(place.length == token.length && place.token_type == token.token_type);
    lemma_start_is_sent(places, data, n);
    let a = char_from_utf16(line, place.start, 0);
    let b = char_from_utf16(line, place.start + place.length, 0);
    lemma_first_at(line, place.start, 0);
    lemma_first_at(line, place.start + place.length, 0);
    lemma_byte_at_grows(line, a, line.len() as int);
    lemma_byte_at_grows(line, b, line.len() as int);
    lemma_byte_at_grows(line, 0, a);
    lemma_byte_at_grows(line, 0, b);
    assert(is_first_at(line, place.start, a) && byte_at(line, a) >= 0);
    assert(is_first_at(line, place.start + place.length, b) && byte_at(line, b) >= 0);
}

/// The stretches of a line are those of the tokens on it that are not empty there.
proof fn lemma_spans_of_places(
    text: Seq<char>,
    types: Seq<Seq<char>>,
    places: Seq<PlacedToken>,
    data: Seq<SemanticToken>,
    i: int,
    n: int,
)
    requires
        are_sent_as(places, data),
        0 <= n <= data.len(),
        byte_len(text_line(text, i)) <= usize::MAX,
    ensures
        forall|k: int|
            0 <= k < spans_on(text, types, data, i, n).len() ==> has_place(
                #[trigger] spans_on(text, types, data, i, n)[k],
                places,
                n,
                text_line(text, i),
                types,
                i,
            ),
    decreases n,
{
    if n > 0 {
        lemma_spans_of_places(text, types, places, data, i, n - 1);
        lemma_span_of_place(text_line(text, i), types, places, data, n);
        lemma_start_is_sent(places, data, n);
        let before = spans_on(text, types, data, i, n - 1);
        let all = spans_on(text, types, data, i, n);
        let line = text_line(text, i);
        assert forall|k: int| 0 <= k < all.len() implies has_place(
            #[trigger] all[k],
            places,
            n,
            line,
            types,
            i,
        ) by {
            if k < before.len() {
                assert(has_place(before[k], places, n - 1, line, types, i));
                let m = choose|m: int|
                    0 <= m < n - 1 && (#[trigger] places[m]).line == i && is_span_of(
                        before[k],
                        places[m],
                        line,
                        types,
                    );
                assert(places[m].line == i && is_span_of(all[k], places[m], line, types));
            } else {
                assert(places[n - 1].line == i && is_span_of(all[k], places[n - 1], line, types));
            }
        }
    }
}

/// A token on a line is among the stretches of the line.
proof fn lemma_token_is_on_line(
    text: Seq<char>,
    types: Seq<Seq<char>>,
    data: Seq<SemanticToken>,
    i: int,
    n: int,
    m: int,
)
    requires
        0 < m <= n <= data.len(),
        is_on_line(text, types, data, m, i),
    ensures
        spans_on(text, types, data, i, n).contains(
            token_span(text_line(text, i), types, data, m),
        ),
    decreases n,
{
    let span = token_span(text_line(text, i), types, data, m);
    let before = spans_on(text, types, data, i, n - 1);
    let all = spans_on(text, types, data, i, n);
    if m < n {
        lemma_token_is_on_line(text, types, data, i, n - 1, m);
        let k = choose|k: int| 0 <= k < before.len() && before[k] == span;
        assert(all[k] == span);
    } else {
        assert(all[before.len() as int] == span);
    }
}

/// Filling the gaps keeps every stretch, and puts nothing but unnamed ones between them.
proof fn lemma_filled_members(spans: Seq<(usize, usize, Seq<char>)>, n: int)
    requires
        0 <= n <= spans.len(),
    ensures
        forall|k: int| 0 <= k < n ==> filled(spans, n).contains(#[trigger] spans[k]),
        forall|k: int|
            0 <= k < filled(spans, n).len() ==> (#[trigger] filled(spans, n)[k]).2.len() == 0
                || exists|m: int| 0 <= m < n && spans[m] == filled(spans, n)[k],
    decreases n,
{
    reveal_strlit("");
    if n > 0 {
        lemma_filled_members(spans, n - 1);
        let before = filled(spans, n - 1);
        let all = filled(spans, n);
        assert forall|k: int| 0 <= k < n implies all.contains(#[trigger] spans[k]) by {
            if k < n - 1 {
                let at = choose|at: int| 0 <= at < before.len() && before[at] == spans[k];
                assert(all[at] == spans[k]);
            } else {
                assert(all[all.len() - 1] == spans[k]);
            }
        }
        assert forall|k: int| 0 <= k < all.len() implies (#[trigger] all[k]).2.len() == 0
            || exists|m: int| 0 <= m < n && spans[m] == all[k] by {
            if k < before.len() {
                assert(all[k] == before[k]);
            } else if k == all.len() - 1 {
                assert(all[k] == spans[n - 1]);
            }
        }
    }
}

/// Tokens stand where the server put them: for all tokens that are sent by their places, every
/// token that covers characters of its line colours them, from its own start to its own end, with
/// the name of its type, and nothing else on the line has a name.
pub proof fn law_tokens_stand_where_they_were_put(
    text: Seq<char>,
    types: Seq<Seq<char>>,
    places: Seq<PlacedToken>,
    data: Seq<SemanticToken>,
    i: int,
)
    requires
        are_sent_as(places, data),
        0 <= i < line_count(text),
        byte_len(text) <= usize::MAX,
    ensures
        forall|m: int, a: int, b: int|
            #![trigger places[m], byte_at(text_line(text, i), a), byte_at(text_line(text, i), b)]
            0 <= m < places.len() && places[m].line == i && 0 <= a < b <= text_line(text, i).len()
                && utf16_at(text_line(text, i), a) == places[m].start && utf16_at(
                text_line(text, i),
                b,
            ) == places[m].start + places[m].length && 0 <= places[m].token_type < types.len()
                ==> decoded(text, types, data)[i].contains(
                (
                    byte_at(text_line(text, i), a) as usize,
                    byte_at(text_line(text, i), b) as usize,
                    types[places[m].token_type],
                ),
            ),
        forall|k: int|
            0 <= k < decoded(text, types, data)[i].len() && (#[trigger] decoded(
                text,
                types,
                data,
            )[i][k]).2.len() > 0 ==> has_place(
                decoded(text, types, data)[i][k],
                places,
                places.len() as int,
                text_line(text, i),
                types,
                i,
            ),
{
    reveal_strlit("");
    let line = text_line(text, i);
    let n = data.len() as int;
    let spans = spans_on(text, types, data, i, n);
    let shown = decoded(text, types, data)[i];
    lemma_starts(text, text.len() as int);
    lemma_line_len(text, i);
    let whole = line_of(text, i);
    lemma_byte_at_prefix(line, whole, line.len() as int);
    lemma_byte_at_grows(whole, line.len() as int, whole.len() as int);
    assert(byte_len(line) <= usize::MAX);
    lemma_spans_of_places(text, types, places, data, i, n);
    lemma_filled_members(spans, spans.len() as int);
    assert(shown == line_colors(spans, byte_len(line) as usize));
    let fill = filled(spans, spans.len() as int);
    assert forall|m: int, a: int, b: int|
        #![trigger places[m], byte_at(text_line(text, i), a), byte_at(text_line(text, i), b)]
        0 <= m < places.len() && places[m].line == i && 0 <= a < b <= line.len() && utf16_at(line, a)
            == places[m].start && utf16_at(line, b) == places[m].start + places[m].length && 0
            <= places[m].token_type < types.len() implies shown.contains(
        (
            byte_at(line, a) as usize,
            byte_at(line, b) as usize,
            types[places[m].token_type],
        ),
    ) by {
        lemma_start_is_sent(places, data, m + 1);
        let token = data[m];
        assert(places[m].length == token.length && places[m].token_type == token.token_type);
        lemma_char_of_utf16(line, a);
        lemma_char_of_utf16(line, b);
        lemma_byte_at_grows(line, a, b);
        lemma_byte_at_grows(line, b, line.len() as int);
        let span = token_span(line, types, data, m + 1);
        assert(is_on_line(text, types, data, m + 1, i));
        lemma_token_is_on_line(text, types, data, i, n, m + 1);
        let k = choose|k: int| 0 <= k < spans.len() && spans[k] == span;
        assert(fill.contains(spans[k]));
        let at = choose|at: int| 0 <= at < fill.len() && fill[at] == span;
        assert(shown[at] == span);
    }
    assert forall|k: int| 0 <= k < shown.len() && (#[trigger] shown[k]).2.len() > 0 implies
        has_place(shown[k], places, n, line, types, i) by {
        assert(k < fill.len() && shown[k] == fill[k]);
        let j = choose|j: int| 0 <= j < spans.len() && spans[j] == fill[k];
        assert(has_place(spans[j], places, n, line, types, i));
    }
}

/// Later characters start at greater UTF-16 offsets.
proof fn lemma_utf16_grows(text: Seq<char>, i: int, j: int)
    requires
        0 <= i <= j,
    ensures
        utf16_at(text, i) + (j - i) <= utf16_at(text, j),
    decreases j - i,
{
    if i < j {
        lemma_utf16_grows(text, i, j - 1);
    }
}

/// The UTF-16 offset of a character leads back to it.
proof fn lemma_char_of_utf16(text: Seq<char>, k: int)
    requires
        0 <= k <= text.len(),
    ensures
        char_from_utf16(text, utf16_at(text, k), 0) == k,
{
    let a = char_from_utf16(text, utf16_at(text, k), 0);
    lemma_first_at(text, utf16_at(text, k), 0);
    if a < k {
        lemma_utf16_grows(text, a, k);
    } else if k < a {
        assert(utf16_at(text, k) < utf16_at(text, k));
    }
}

/// UTF-16 counts two units for exactly those characters that take four bytes, and one for all
/// others; and an offset between two characters is that of the second.
pub proof fn law_utf16_offset_leads_to_byte(text: Seq<char>, k: int)
    requires
        0 <= k <= text.len(),
    ensures
        byte_of_utf16(text, utf16_at(text, k)) == byte_at(text, k),
        k < text.len() ==> utf16_at(text, k + 1) - utf16_at(text, k) == if byte_at(text, k + 1)
            - byte_at(text, k) == 4 {
            2int
        } else {
            1
        },
        utf16_at(text, 0) == 0,
{
    lemma_char_of_utf16(text, k);
}

} // verus!
