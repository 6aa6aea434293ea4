//! A line of input with a cursor that counts grapheme clusters.

use vstd::prelude::*;
use crate::geometry::Pos;
use crate::input::{InputEvent, Key, KeyPress, ModifierKeysMask, SpecialKey};
use crate::render::{
    Draw, RenderOp, TuiColor, TuiStyle, colored, draws, lemma_draws_push, move_to, paint, reversed,
};
use crate::text::{
    append_parts, chars_of, copy_of, grapheme_clusters, is_ascii_punctuation, is_control,
    is_control_code, is_printable, is_punctuation, is_white_space, is_whitespace, joined,
    lemma_joined_concat, lemma_joined_len, lemma_joined_push, lemma_no_occurrence,
    lemma_occurrences_concat, lemma_piece_len, lemma_pieces_len, occurrences, one_by_one,
    split_at_char, split_graphemes, split_on, texts,
};

verus! {

/// The cursor of an input line.
pub struct InputLine {
    cursor: usize,
}

/// What an edit leaves: the cursor, the text, and whether the event was one of the line's own.
#[verifier::ext_equal]
pub struct Edited {
    pub cursor: int,
    pub text: Seq<char>,
    pub handled: bool,
}

/// A cluster that separates words: it holds only white space and ASCII punctuation.
pub open spec fn separates(cluster: Seq<char>) -> bool {
    forall|i: int|
        0 <= i < cluster.len() ==> is_white_space(#[trigger] cluster[i]) || is_punctuation(
            cluster[i],
        )
}

/// The nearest place at or before `i` that holds no separator, or the first place.
pub open spec fn back_over_separators(g: Seq<Seq<char>>, i: int) -> int
    decreases i,
{
    if i > 0 && separates(g[i]) {
        back_over_separators(g, i - 1)
    } else {
        i
    }
}

/// The nearest place at or before `i` that holds a separator, or the first place.
pub open spec fn back_over_word(g: Seq<Seq<char>>, i: int) -> int
    decreases i,
{
    if i > 0 && !separates(g[i]) {
        back_over_word(g, i - 1)
    } else {
        i
    }
}

/// Where the word before the cursor starts.
pub open spec fn word_start_before(g: Seq<Seq<char>>, cursor: int) -> int {
    if g.len() == 0 || cursor == 0 {
        0
    } else {
        let from = if cursor - 1 < g.len() - 1 {
            cursor - 1
        } else {
            g.len() - 1
        };
        let word = back_over_separators(g, from);
        if word == 0 && separates(g[0]) {
            0
        } else {
            let start = back_over_word(g, word);
            if start > 0 && separates(g[start]) {
                start + 1
            } else {
                start
            }
        }
    }
}

/// The nearest place at or after `i` that holds no separator, or the end.
pub open spec fn over_separators(g: Seq<Seq<char>>, i: int) -> int
    decreases g.len() - i,
{
    if i < g.len() && separates(g[i]) {
        over_separators(g, i + 1)
    } else {
        i
    }
}

/// The nearest place at or after `i` that holds a separator, or the end.
pub open spec fn over_word(g: Seq<Seq<char>>, i: int) -> int
    decreases g.len() - i,
{
    if i < g.len() && !separates(g[i]) {
        over_word(g, i + 1)
    } else {
        i
    }
}

/// Where the word after the one at the cursor starts, or the end.
pub open spec fn word_start_after(g: Seq<Seq<char>>, cursor: int) -> int {
    if cursor >= g.len() {
        g.len() as int
    } else {
        over_separators(g, over_word(g, cursor))
    }
}

/// Where the word at or after the cursor ends, or the end.
pub open spec fn word_end_after(g: Seq<Seq<char>>, cursor: int) -> int {
    if cursor >= g.len() {
        g.len() as int
    } else {
        over_word(g, over_separators(g, cursor))
    }
}

/// The text with the clusters from `from` up to `to` replaced by `middle`.
pub open spec fn spliced(g: Seq<Seq<char>>, from: int, to: int, middle: Seq<char>) -> Seq<char> {
    joined(g.take(from)) + middle + joined(g.skip(to))
}

/// The edit that moves the cursor to `to`, where that is another place.
pub open spec fn moved(g: Seq<Seq<char>>, c: int, to: int) -> Edited {
    Edited { cursor: to, text: joined(g), handled: to != c }
}

/// An event that is not the line's own.
pub open spec fn ignored(g: Seq<Seq<char>>, c: int) -> Edited {
    Edited { cursor: c, text: joined(g), handled: false }
}

/// The edit that puts `middle`, of `n` clusters, at the cursor.
pub open spec fn inserted(g: Seq<Seq<char>>, c: int, middle: Seq<char>, n: int) -> Edited {
    Edited { cursor: c + n, text: spliced(g, c, c, middle), handled: true }
}

/// The edit that takes out the clusters from `from` up to `to` and leaves the cursor at `from`.
pub open spec fn cut(g: Seq<Seq<char>>, c: int, from: int, to: int) -> Edited {
    if from < to {
        Edited { cursor: from, text: spliced(g, from, to, Seq::empty()), handled: true }
    } else {
        ignored(g, c)
    }
}

/// The edit that takes out the cluster at the cursor.
pub open spec fn cut_next(g: Seq<Seq<char>>, c: int) -> Edited {
    if c < g.len() {
        cut(g, c, c, c + 1)
    } else {
        ignored(g, c)
    }
}

/// What a key with the control key does.
pub open spec fn ctrl_edit(g: Seq<Seq<char>>, c: int, key: Key) -> Edited {
    match key {
        Key::Character('a') => Edited { cursor: 0, text: joined(g), handled: true },
        Key::Character('e') => Edited { cursor: g.len() as int, text: joined(g), handled: true },
        Key::Character('d') => cut_next(g, c),
        Key::Character('b') => moved(g, c, if c > 0 { c - 1 } else { 0 }),
        Key::Character('f') => moved(g, c, if c < g.len() { c + 1 } else { c }),
        Key::Character('k') => cut(g, c, c, g.len() as int),
        Key::Character('c') => Edited { cursor: 0, text: Seq::empty(), handled: true },
        Key::Character('u') => cut(g, c, 0, c),
        Key::Character('w') => cut(g, c, word_start_before(g, c), c),
        Key::SpecialKey(SpecialKey::Left) => moved(g, c, word_start_before(g, c)),
        Key::SpecialKey(SpecialKey::Right) => moved(g, c, word_start_after(g, c)),
        _ => ignored(g, c),
    }
}

/// What a key with the alt key does.
pub open spec fn alt_edit(g: Seq<Seq<char>>, c: int, key: Key) -> Edited {
    match key {
        Key::Character('b') => moved(g, c, word_start_before(g, c)),
        Key::Character('f') => moved(g, c, word_start_after(g, c)),
        Key::Character('d') => cut(g, c, c, word_end_after(g, c)),
        Key::SpecialKey(SpecialKey::Backspace) => cut(g, c, word_start_before(g, c), c),
        _ => ignored(g, c),
    }
}

/// What typing `ch` does.
pub open spec fn typed(g: Seq<Seq<char>>, c: int, ch: char) -> Edited {
    if is_control_code(ch) {
        ignored(g, c)
    } else {
        inserted(g, c, seq![ch], 1)
    }
}

/// What a key with the shift key does.
pub open spec fn shift_edit(g: Seq<Seq<char>>, c: int, key: Key) -> Edited {
    match key {
        Key::SpecialKey(SpecialKey::Enter) => inserted(g, c, seq!['\n'], 1),
        Key::Character(ch) => typed(g, c, ch),
        _ => ignored(g, c),
    }
}

/// What a key alone does.
pub open spec fn plain_edit(g: Seq<Seq<char>>, c: int, key: Key) -> Edited {
    match key {
        Key::Character(ch) => typed(g, c, ch),
        Key::SpecialKey(SpecialKey::Backspace) => if c > 0 {
            cut(g, c, c - 1, c)
        } else {
            ignored(g, c)
        },
        Key::SpecialKey(SpecialKey::Delete) => cut_next(g, c),
        Key::SpecialKey(SpecialKey::Home) => moved(g, c, 0),
        Key::SpecialKey(SpecialKey::End) => moved(g, c, g.len() as int),
        Key::SpecialKey(SpecialKey::Left) => moved(g, c, if c > 0 { c - 1 } else { 0 }),
        Key::SpecialKey(SpecialKey::Right) => moved(g, c, if c < g.len() { c + 1 } else { c }),
        _ => ignored(g, c),
    }
}

/// What an event does to a text with the clusters `g`, with the cursor at `cursor`. `pasted` is
/// the number of clusters of a pasted text.
pub open spec fn edited(g: Seq<Seq<char>>, cursor: int, event: InputEvent, pasted: int) -> Edited {
    let c = if cursor < g.len() {
        cursor
    } else {
        g.len() as int
    };
    match event {
        InputEvent::Keyboard(KeyPress::WithModifiers { key, mask }) => if mask
            == ModifierKeysMask::ctrl() {
            ctrl_edit(g, c, key)
        } else if mask == ModifierKeysMask::alt() {
            alt_edit(g, c, key)
        } else if mask == ModifierKeysMask::shift() {
            shift_edit(g, c, key)
        } else {
            ignored(g, c)
        },
        InputEvent::Keyboard(KeyPress::Plain { key }) => plain_edit(g, c, key),
        InputEvent::BracketedPaste(text) => if text@.len() == 0 {
            ignored(g, c)
        } else {
            inserted(g, c, text@, pasted)
        },
        _ => ignored(g, c),
    }
}

/// How many clusters the text has that an event pastes.
pub open spec fn pasted_clusters(event: InputEvent) -> int {
    match event {
        InputEvent::BracketedPaste(text) => grapheme_clusters(text@).len() as int,
        _ => 0,
    }
}

/// The most characters that an event puts in.
pub open spec fn added_chars(event: InputEvent) -> int {
    match event {
        InputEvent::BracketedPaste(text) => text@.len() as int,
        _ => 1,
    }
}

/// An event that the line leaves alone leaves its text alone.
pub proof fn law_ignored_event_keeps_text(
    g: Seq<Seq<char>>,
    cursor: int,
    event: InputEvent,
    pasted: int,
)
    requires
        0 <= cursor,
    ensures
        !edited(g, cursor, event, pasted).handled ==> edited(g, cursor, event, pasted).text
            == joined(g),
{
}

/// What replaces clusters makes a text no longer than by as much as it has characters.
proof fn lemma_spliced_len(g: Seq<Seq<char>>, from: int, to: int, middle: Seq<char>)
    requires
        0 <= from <= to <= g.len(),
    ensures
        spliced(g, from, to, middle).len() <= joined(g).len() + middle.len(),
{
    let cut = g.subrange(from, to);
    lemma_joined_concat(g.take(from), cut);
    lemma_joined_concat(g.take(from) + cut, g.skip(to));
    assert(g.take(from) + cut + g.skip(to) =~= g);
}

/// An event makes a text no longer than by what it puts in.
pub proof fn law_text_grows_by_what_is_put_in(
    g: Seq<Seq<char>>,
    cursor: int,
    event: InputEvent,
    pasted: int,
)
    requires
        0 <= cursor,
    ensures
        edited(g, cursor, event, pasted).text.len() <= joined(g).len() + added_chars(event),
{
    let c = if cursor < g.len() {
        cursor
    } else {
        g.len() as int
    };
    lemma_word_places(g, c);
    lemma_spliced_len(g, c, c, seq!['\n']);
    lemma_spliced_len(g, c, g.len() as int, Seq::empty());
    lemma_spliced_len(g, 0, c, Seq::empty());
    lemma_spliced_len(g, word_start_before(g, c), c, Seq::empty());
    lemma_spliced_len(g, c, word_end_after(g, c), Seq::empty());
    if c > 0 {
        lemma_spliced_len(g, c - 1, c, Seq::empty());
    }
    if c < g.len() {
        lemma_spliced_len(g, c, c + 1, Seq::empty());
    }
    match event {
        InputEvent::Keyboard(KeyPress::WithModifiers { key: Key::Character(ch), mask }) => {
            lemma_spliced_len(g, c, c, seq![ch]);
        },
        InputEvent::Keyboard(KeyPress::Plain { key: Key::Character(ch) }) => {
            lemma_spliced_len(g, c, c, seq![ch]);
        },
        InputEvent::BracketedPaste(text) => {
            lemma_spliced_len(g, c, c, text@);
        },
        _ => {},
    }
}

/// The cursor stays within the text that it moves in: moving and cutting leave it between the
/// start and the number of clusters that were there.
pub proof fn law_cursor_stays_in_text(
    g: Seq<Seq<char>>,
    cursor: int,
    event: InputEvent,
    pasted: int,
)
    requires
        0 <= cursor,
        0 <= pasted,
    ensures
        ({
            let e = edited(g, cursor, event, pasted);
            0 <= e.cursor <= g.len() + if pasted >= 1 { pasted } else { 1 }
        }),
{
    let c = if cursor < g.len() { cursor } else { g.len() as int };
    lemma_word_places(g, c);
}

/// Taking out what stands before the cursor and then what stands after it leaves nothing, as does
/// clearing the line.
pub proof fn law_killing_both_sides_clears(g: Seq<Seq<char>>, c: int)
    requires
        0 <= c <= g.len(),
    ensures
        joined(g.take(c)) + joined(g.skip(c)) == joined(g),
        cut(g, c, 0, c).handled ==> cut(g, c, 0, c).text == joined(g.skip(c)),
        cut(g, c, c, g.len() as int).handled ==> cut(g, c, c, g.len() as int).text == joined(
            g.take(c),
        ),
{
    assert(g.take(c) + g.skip(c) =~= g);
    lemma_joined_concat(g.take(c), g.skip(c));
    assert(g.take(0) =~= Seq::empty());
    assert(g.skip(g.len() as int) =~= Seq::empty());
    assert(spliced(g, 0, c, Seq::empty()) =~= joined(g.skip(c)));
    assert(spliced(g, c, g.len() as int, Seq::empty()) =~= joined(g.take(c)));
}

/// The event of a character that is typed.
pub open spec fn character_typed(c: char) -> InputEvent {
    InputEvent::Keyboard(KeyPress::Plain { key: Key::Character(c) })
}

/// The event of the Backspace key.
pub open spec fn backspace() -> InputEvent {
    InputEvent::Keyboard(KeyPress::Plain { key: Key::SpecialKey(SpecialKey::Backspace) })
}

/// Backspace undoes typing a character, wherever the cursor is, where the character is a cluster of
/// its own in the text that it is put into.
pub proof fn law_backspace_undoes_typing(g: Seq<Seq<char>>, cursor: int, ch: char)
    requires
        0 <= cursor,
        !is_control_code(ch),
    ensures
        ({
            let c = if cursor < g.len() { cursor } else { g.len() as int };
            let first = edited(g, cursor, character_typed(ch), 0);
            let next = g.take(c) + seq![seq![ch]] + g.skip(c);
            let second = edited(next, first.cursor, backspace(), 0);
            &&& first.handled && second.handled
            &&& first.text == joined(next)
            &&& first.text.len() == joined(g).len() + 1
            &&& second.text == joined(g)
            &&& second.cursor == c
        }),
{
    let c = if cursor < g.len() { cursor } else { g.len() as int };
    let first = edited(g, cursor, character_typed(ch), 0);
    let one = seq![seq![ch]];
    let next = g.take(c) + one + g.skip(c);
    lemma_joined_push(Seq::empty(), seq![ch]);
    assert(Seq::<Seq<char>>::empty().push(seq![ch]) =~= one);
    assert(joined(one) =~= seq![ch]);
    lemma_joined_concat(g.take(c), one);
    lemma_joined_concat(g.take(c) + one, g.skip(c));
    lemma_joined_concat(g.take(c), g.skip(c));
    assert(g.take(c) + g.skip(c) =~= g);
    assert(next.take(c) =~= g.take(c));
    assert(next.skip(c + 1) =~= g.skip(c));
    assert(spliced(next, c, c + 1, Seq::empty()) =~= joined(g));
}

/// Backspace undoes typing a printable ASCII character into a text of such characters, wherever
/// the cursor is. The clusters of such a text are its characters.
pub proof fn law_backspace_undoes_typing_ascii(text: Seq<char>, cursor: int, ch: char)
    requires
        0 <= cursor,
        is_printable(text),
        ' ' <= ch <= '~',
    ensures
        ({
            let first = edited(one_by_one(text), cursor, character_typed(ch), 0);
            let second = edited(one_by_one(first.text), first.cursor, backspace(), 0);
            &&& first.handled && second.handled
            &&& first.text.len() == text.len() + 1
            &&& is_printable(first.text)
            &&& second.text == text
        }),
{
    let g = one_by_one(text);
    let c = if cursor < g.len() { cursor } else { g.len() as int };
    let first = edited(g, cursor, character_typed(ch), 0);
    law_backspace_undoes_typing(g, cursor, ch);
    lemma_one_by_one(text);
    lemma_one_by_one(text.take(c));
    lemma_one_by_one(text.skip(c));
    assert(g.take(c) =~= one_by_one(text.take(c)));
    assert(g.skip(c) =~= one_by_one(text.skip(c)));
    let next = g.take(c) + seq![seq![ch]] + g.skip(c);
    assert(first.text =~= text.take(c) + seq![ch] + text.skip(c));
    assert(one_by_one(first.text) =~= next);
    assert forall|i: int| 0 <= i < first.text.len() implies ' ' <= #[trigger] first.text[i]
        <= '~' by {
        if i < c {
            assert(first.text[i] == text[i]);
        } else if i > c {
            assert(first.text[i] == text[i - 1]);
        }
    }
}

/// The characters of a text, one after the other, are the text.
proof fn lemma_one_by_one(text: Seq<char>)
    ensures
        joined(one_by_one(text)) == text,
    decreases text.len(),
{
    if text.len() > 0 {
        lemma_one_by_one(text.drop_last());
        assert(one_by_one(text).drop_last() =~= one_by_one(text.drop_last()));
        assert(text =~= text.drop_last() + seq![text.last()]);
    } else {
        assert(joined(one_by_one(text)) =~= text);
    }
}

/// How many lines a text takes.
pub open spec fn lines_in(text: Seq<char>) -> int {
    occurrences(text, '\n', text.len() as int) + 1
}

/// The lines of two texts with a line break between them are those of the one and those of the
/// other, and a text without a line break is one line.
pub proof fn law_line_counts_add_up(a: Seq<char>, b: Seq<char>)
    ensures
        lines_in(a + seq!['\n'] + b) == lines_in(a) + lines_in(b),
        !a.contains('\n') ==> lines_in(a) == 1,
{
    let line_break = seq!['\n'];
    let n = a.len() as int;
    lemma_occurrences_concat(a, line_break, '\n', n + 1);
    lemma_occurrences_concat(a + line_break, b, '\n', n + 1 + b.len());
    assert(occurrences(line_break, '\n', 1) == occurrences(line_break, '\n', 0) + 1);
    if !a.contains('\n') {
        lemma_no_occurrence(a, '\n', n);
    }
}

/// The places that word motions reach lie in the text.
pub proof fn lemma_word_places(g: Seq<Seq<char>>, c: int)
    requires
        0 <= c <= g.len(),
    ensures
        0 <= word_start_before(g, c) <= c,
        c <= word_start_after(g, c) <= g.len(),
        c <= word_end_after(g, c) <= g.len(),
{
    if c > 0 {
        lemma_back_over_separators(g, c - 1);
        lemma_back_over_word(g, back_over_separators(g, c - 1));
    }
    if c < g.len() {
        lemma_over(g, c);
        lemma_over(g, over_word(g, c));
        lemma_over(g, over_separators(g, c));
    }
}

proof fn lemma_back_over_separators(g: Seq<Seq<char>>, i: int)
    requires
        0 <= i,
    ensures
        0 <= back_over_separators(g, i) <= i,
        back_over_separators(g, i) > 0 ==> !separates(g[back_over_separators(g, i)]),
    decreases i,
{
    if i > 0 && separates(g[i]) {
        lemma_back_over_separators(g, i - 1);
    }
}

proof fn lemma_back_over_word(g: Seq<Seq<char>>, i: int)
    requires
        0 <= i,
    ensures
        0 <= back_over_word(g, i) <= i,
        back_over_word(g, i) == i ==> i == 0 || separates(g[i]),
    decreases i,
{
    if i > 0 && !separates(g[i]) {
        lemma_back_over_word(g, i - 1);
    }
}

proof fn lemma_over(g: Seq<Seq<char>>, i: int)
    requires
        0 <= i <= g.len(),
    ensures
        i <= over_word(g, i) <= g.len(),
        i <= over_separators(g, i) <= g.len(),
    decreases g.len() - i,
{
    if i < g.len() {
        lemma_over(g, i + 1);
    }
}

/// The text with the clusters from `from` up to `to` replaced by `middle`.
fn splice(parts: &Vec<String>, from: usize, to: usize, middle: &str) -> (r: String)
    requires
        from <= to <= parts@.len(),
    ensures
        r@ == spliced(texts(parts@), from as int, to as int, middle@),
{
    let ghost g = texts(parts@);
    let mut out = String::new();
    append_parts(&mut out, parts, 0, from);
    out.append(middle);
    append_parts(&mut out, parts, to, parts.len());
    assert(g.subrange(0, from as int) =~= g.take(from as int));
    assert(g.subrange(to as int, g.len() as int) =~= g.skip(to as int));
    assert(Seq::<char>::empty() + joined(g.take(from as int)) =~= joined(g.take(from as int)));
    out
}

impl InputLine {
    /// Where the cursor is, in clusters.
    pub closed spec fn cursor(&self) -> usize {
        self.cursor
    }

    /// A line with the cursor at its start.
    pub fn new() -> (r: Self)
        ensures
            r.cursor() == 0,
    {
        InputLine { cursor: 0 }
    }

    /// Where the cursor is, in clusters.
    pub fn cursor_position(&self) -> (r: usize)
        ensures
            r == self.cursor(),
    {
        self.cursor
    }

    /// Edits `query` as `input_event` says, and returns whether the event was one of the line's
    /// own.
    pub fn handle_key(&mut self, input_event: &InputEvent, query: &mut String) -> (r: bool)
        requires
            old(query)@.len() + added_chars(*input_event) <= usize::MAX,
        ensures
            (Edited { cursor: final(self).cursor() as int, text: final(query)@, handled: r })
                == edited(
                grapheme_clusters(old(query)@),
                old(self).cursor() as int,
                *input_event,
                pasted_clusters(*input_event),
            ),
            joined(grapheme_clusters(old(query)@)) == old(query)@,
            is_printable(old(query)@) ==> grapheme_clusters(old(query)@) == one_by_one(
                old(query)@,
            ),
            final(query)@.len() <= old(query)@.len() + added_chars(*input_event),
    {
        let parts = split_graphemes(query.as_str());
        proof {
            lemma_joined_len(texts(parts@));
            law_text_grows_by_what_is_put_in(
                texts(parts@),
                self.cursor() as int,
                *input_event,
                pasted_clusters(*input_event),
            );
        }
        let pasted: usize = match input_event {
            InputEvent::BracketedPaste(text) => {
                let clusters = split_graphemes(text.as_str());
                proof {
                    lemma_joined_len(texts(clusters@));
                }
                clusters.len()
            },
            _ => 0,
        };
        self.edit(input_event, query, &parts, pasted)
    }

    /// Edits `query`, which has the clusters `parts`, as `input_event` says. `pasted` is the
    /// number of clusters of a pasted text.
    pub fn edit(
        &mut self,
        input_event: &InputEvent,
        query: &mut String,
        parts: &Vec<String>,
        pasted: usize,
    ) -> (r: bool)
        requires
            joined(texts(parts@)) == old(query)@,
            parts@.len() + pasted <= usize::MAX,
            !(input_event is BracketedPaste) ==> parts@.len() < usize::MAX,
        ensures
            (Edited { cursor: final(self).cursor() as int, text: final(query)@, handled: r })
                == edited(
                texts(parts@),
                old(self).cursor() as int,
                *input_event,
                pasted as int,
            ),
    {
        let count: usize = parts.len();
        if self.cursor > count {
            self.cursor = count;
        }
        let c: usize = self.cursor;
        match input_event {
            InputEvent::Keyboard(KeyPress::WithModifiers { key, mask }) => {
                if mask.is_ctrl() {
                    self.edit_with_ctrl(*key, query, parts)
                } else if mask.is_alt() {
                    match *key {
                        Key::Character('b') => self.cursor_prev_word(parts),
                        Key::Character('f') => self.cursor_next_word(parts),
                        Key::Character('d') => self.kill_word_forward(query, parts),
                        Key::SpecialKey(SpecialKey::Backspace) => self.kill_word_backward(
                            query,
                            parts,
                        ),
                        _ => false,
                    }
                } else if mask.is_shift() {
                    match *key {
                        Key::SpecialKey(SpecialKey::Enter) => {
                            self.insert_char('\n', query, parts);
                            true
                        },
                        Key::Character(ch) => {
                            if is_control(ch) {
                                return false;
                            }
                            self.insert_char(ch, query, parts);
                            true
                        },
                        _ => false,
                    }
                } else {
                    false
                }
            },
            InputEvent::Keyboard(KeyPress::Plain { key }) => match *key {
                Key::Character(ch) => {
                    if is_control(ch) {
                        return false;
                    }
                    self.insert_char(ch, query, parts);
                    true
                },
                Key::SpecialKey(SpecialKey::Backspace) => self.backspace_grapheme(query, parts),
                Key::SpecialKey(SpecialKey::Delete) => self.delete_grapheme(query, parts),
                Key::SpecialKey(SpecialKey::Home) => {
                    self.cursor = 0;
                    c != 0
                },
                Key::SpecialKey(SpecialKey::End) => {
                    self.cursor = count;
                    c != count
                },
                Key::SpecialKey(SpecialKey::Left) => self.cursor_left(),
                Key::SpecialKey(SpecialKey::Right) => self.cursor_right(parts),
                _ => false,
            },
            InputEvent::BracketedPaste(text) => {
                if text.as_str().is_empty() {
                    return false;
                }
                let next = splice(parts, c, c, text.as_str());
                *query = next;
                self.cursor = c + pasted;
                true
            },
            _ => false,
        }
    }

    fn edit_with_ctrl(&mut self, key: Key, query: &mut String, parts: &Vec<String>) -> (r: bool)
        requires
            joined(texts(parts@)) == old(query)@,
            old(self).cursor() <= parts@.len(),
        ensures
            (Edited { cursor: final(self).cursor() as int, text: final(query)@, handled: r })
                == ctrl_edit(texts(parts@), old(self).cursor() as int, key),
    {
        match key {
            Key::Character('a') => {
                self.cursor = 0;
                true
            },
            Key::Character('e') => {
                self.cursor = parts.len();
                true
            },
            Key::Character('d') => self.delete_grapheme(query, parts),
            Key::Character('b') => self.cursor_left(),
            Key::Character('f') => self.cursor_right(parts),
            Key::Character('k') => self.kill_to_end(query, parts),
            Key::Character('c') => {
                *query = String::new();
                self.cursor = 0;
                true
            },
            Key::Character('u') => self.kill_to_start(query, parts),
            Key::Character('w') => self.kill_word_backward(query, parts),
            Key::SpecialKey(SpecialKey::Left) => self.cursor_prev_word(parts),
            Key::SpecialKey(SpecialKey::Right) => self.cursor_next_word(parts),
            _ => false,
        }
    }

    fn insert_char(&mut self, ch: char, query: &mut String, parts: &Vec<String>)
        requires
            old(self).cursor() <= parts@.len() < usize::MAX,
        ensures
            (Edited { cursor: final(self).cursor() as int, text: final(query)@, handled: true })
                == inserted(texts(parts@), old(self).cursor() as int, seq![ch], 1),
    {
        let mut middle = String::new();
        middle.push(ch);
        assert(middle@ =~= seq![ch]);
        let next = splice(parts, self.cursor, self.cursor, middle.as_str());
        *query = next;
        self.cursor = self.cursor + 1;
    }

    fn cursor_left(&mut self) -> (r: bool)
        ensures
            r == (old(self).cursor() > 0),
            final(self).cursor() == if old(self).cursor() > 0 {
                old(self).cursor() - 1
            } else {
                0
            },
    {
        if self.cursor == 0 {
            false
        } else {
            self.cursor = self.cursor - 1;
            true
        }
    }

    fn cursor_right(&mut self, parts: &Vec<String>) -> (r: bool)
        ensures
            r == (old(self).cursor() < parts@.len()),
            final(self).cursor() == if old(self).cursor() < parts@.len() {
                old(self).cursor() + 1
            } else {
                old(self).cursor() as int
            },
    {
        if self.cursor >= parts.len() {
            false
        } else {
            self.cursor = self.cursor + 1;
            true
        }
    }

    fn backspace_grapheme(&mut self, query: &mut String, parts: &Vec<String>) -> (r: bool)
        requires
            joined(texts(parts@)) == old(query)@,
            old(self).cursor() <= parts@.len(),
        ensures
            (Edited { cursor: final(self).cursor() as int, text: final(query)@, handled: r })
                == plain_edit(
                texts(parts@),
                old(self).cursor() as int,
                Key::SpecialKey(SpecialKey::Backspace),
            ),
    {
        if self.cursor == 0 {
            return false;
        }
        let next = splice(parts, self.cursor - 1, self.cursor, "");
        proof {
            reveal_strlit("");
            assert(""@ =~= Seq::<char>::empty());
        }
        *query = next;
        self.cursor = self.cursor - 1;
        true
    }

    fn delete_grapheme(&mut self, query: &mut String, parts: &Vec<String>) -> (r: bool)
        requires
            joined(texts(parts@)) == old(query)@,
            old(self).cursor() <= parts@.len(),
        ensures
            (Edited { cursor: final(self).cursor() as int, text: final(query)@, handled: r })
                == cut_next(texts(parts@), old(self).cursor() as int),
    {
        if self.cursor >= parts.len() {
            return false;
        }
        let next = splice(parts, self.cursor, self.cursor + 1, "");
        proof {
            reveal_strlit("");
            assert(""@ =~= Seq::<char>::empty());
        }
        *query = next;
        true
    }

    fn kill_to_end(&mut self, query: &mut String, parts: &Vec<String>) -> (r: bool)
        requires
            joined(texts(parts@)) == old(query)@,
            old(self).cursor() <= parts@.len(),
        ensures
            (Edited { cursor: final(self).cursor() as int, text: final(query)@, handled: r })
                == cut(
                texts(parts@),
                old(self).cursor() as int,
                old(self).cursor() as int,
                parts@.len() as int,
            ),
    {
        if self.cursor >= parts.len() {
            return false;
        }
        let next = splice(parts, self.cursor, parts.len(), "");
        proof {
            reveal_strlit("");
            assert(""@ =~= Seq::<char>::empty());
        }
        *query = next;
        true
    }

    fn kill_to_start(&mut self, query: &mut String, parts: &Vec<String>) -> (r: bool)
        requires
            joined(texts(parts@)) == old(query)@,
            old(self).cursor() <= parts@.len(),
        ensures
            (Edited { cursor: final(self).cursor() as int, text: final(query)@, handled: r })
                == cut(
                texts(parts@),
                old(self).cursor() as int,
                0,
                old(self).cursor() as int,
            ),
    {
        if self.cursor == 0 {
            return false;
        }
        let next = splice(parts, 0, self.cursor, "");
        proof {
            reveal_strlit("");
            assert(""@ =~= Seq::<char>::empty());
        }
        *query = next;
        self.cursor = 0;
        true
    }

    fn kill_word_backward(&mut self, query: &mut String, parts: &Vec<String>) -> (r: bool)
        requires
            joined(texts(parts@)) == old(query)@,
            old(self).cursor() <= parts@.len(),
        ensures
            (Edited { cursor: final(self).cursor() as int, text: final(query)@, handled: r })
                == cut(
                texts(parts@),
                old(self).cursor() as int,
                word_start_before(texts(parts@), old(self).cursor() as int),
                old(self).cursor() as int,
            ),
    {
        let word_start: usize = self.prev_word_start(parts);
        if word_start >= self.cursor {
            return false;
        }
        let next = splice(parts, word_start, self.cursor, "");
        proof {
            reveal_strlit("");
            assert(""@ =~= Seq::<char>::empty());
        }
        *query = next;
        self.cursor = word_start;
        true
    }

    fn kill_word_forward(&mut self, query: &mut String, parts: &Vec<String>) -> (r: bool)
        requires
            joined(texts(parts@)) == old(query)@,
            old(self).cursor() <= parts@.len(),
        ensures
            (Edited { cursor: final(self).cursor() as int, text: final(query)@, handled: r })
                == cut(
                texts(parts@),
                old(self).cursor() as int,
                old(self).cursor() as int,
                word_end_after(texts(parts@), old(self).cursor() as int),
            ),
    {
        let word_end: usize = self.next_word_end(parts);
        if word_end <= self.cursor {
            return false;
        }
        let next = splice(parts, self.cursor, word_end, "");
        proof {
            reveal_strlit("");
            assert(""@ =~= Seq::<char>::empty());
        }
        *query = next;
        true
    }

    fn cursor_prev_word(&mut self, parts: &Vec<String>) -> (r: bool)
        requires
            old(self).cursor() <= parts@.len(),
        ensures
            final(self).cursor() == word_start_before(texts(parts@), old(self).cursor() as int),
            r == (final(self).cursor() != old(self).cursor()),
    {
        let next: usize = self.prev_word_start(parts);
        if next == self.cursor {
            return false;
        }
        self.cursor = next;
        true
    }

    fn cursor_next_word(&mut self, parts: &Vec<String>) -> (r: bool)
        requires
            old(self).cursor() <= parts@.len(),
        ensures
            final(self).cursor() == word_start_after(texts(parts@), old(self).cursor() as int),
            r == (final(self).cursor() != old(self).cursor()),
    {
        let next: usize = self.next_word_start(parts);
        if next == self.cursor {
            return false;
        }
        self.cursor = next;
        true
    }

    fn is_word_boundary(grapheme: &str) -> (r: bool)
        ensures
            r == separates(grapheme@),
    {
        let chars = chars_of(grapheme);
        let mut i: usize = 0;
        while i < chars.len()
            invariant
                i <= chars@.len(),
                chars@ == grapheme@,
                forall|j: int|
                    0 <= j < i ==> is_white_space(#[trigger] chars@[j]) || is_punctuation(
                        chars@[j],
                    ),
            decreases chars@.len() - i,
        {
            if !(is_whitespace(chars[i]) || is_ascii_punctuation(chars[i])) {
                return false;
            }
            i += 1;
        }
        true
    }

    fn prev_word_start(&self, parts: &Vec<String>) -> (r: usize)
        requires
            self.cursor() <= parts@.len(),
        ensures
            r == word_start_before(texts(parts@), self.cursor() as int),
            r <= self.cursor(),
    {
        let ghost g = texts(parts@);
        proof {
            lemma_word_places(g, self.cursor as int);
        }
        if parts.len() == 0 || self.cursor == 0 {
            return 0;
        }
        let mut idx: usize = self.cursor - 1;
        let ghost from = idx as int;
        while idx > 0 && Self::is_word_boundary(parts[idx].as_str())
            invariant
                g == texts(parts@),
                idx < parts@.len(),
                back_over_separators(g, idx as int) == back_over_separators(g, from),
            decreases idx,
        {
            idx -= 1;
        }
        if idx == 0 && Self::is_word_boundary(parts[0].as_str()) {
            return 0;
        }
        let ghost word = idx as int;
        while idx > 0 && !Self::is_word_boundary(parts[idx].as_str())
            invariant
                g == texts(parts@),
                idx < parts@.len(),
                back_over_word(g, idx as int) == back_over_word(g, word),
            decreases idx,
        {
            idx -= 1;
        }
        if idx > 0 && Self::is_word_boundary(parts[idx].as_str()) {
            idx += 1;
        }
        idx
    }

    fn next_word_start(&self, parts: &Vec<String>) -> (r: usize)
        requires
            self.cursor() <= parts@.len(),
        ensures
            r == word_start_after(texts(parts@), self.cursor() as int),
            self.cursor() <= r <= parts@.len(),
    {
        let ghost g = texts(parts@);
        let count: usize = parts.len();
        let mut idx: usize = self.cursor;
        while idx < count && !Self::is_word_boundary(parts[idx].as_str())
            invariant
                g == texts(parts@),
                count == parts@.len(),
                self.cursor() <= idx <= count,
                over_word(g, idx as int) == over_word(g, self.cursor() as int),
            decreases count - idx,
        {
            idx += 1;
        }
        let ghost word_end = idx as int;
        while idx < count && Self::is_word_boundary(parts[idx].as_str())
            invariant
                g == texts(parts@),
                count == parts@.len(),
                self.cursor() <= idx <= count,
                over_separators(g, idx as int) == over_separators(g, word_end),
            decreases count - idx,
        {
            idx += 1;
        }
        idx
    }

    fn next_word_end(&self, parts: &Vec<String>) -> (r: usize)
        requires
            self.cursor() <= parts@.len(),
        ensures
            r == word_end_after(texts(parts@), self.cursor() as int),
            self.cursor() <= r <= parts@.len(),
    {
        let ghost g = texts(parts@);
        let count: usize = parts.len();
        let mut idx: usize = self.cursor;
        while idx < count && Self::is_word_boundary(parts[idx].as_str())
            invariant
                g == texts(parts@),
                count == parts@.len(),
                self.cursor() <= idx <= count,
                over_separators(g, idx as int) == over_separators(g, self.cursor() as int),
            decreases count - idx,
        {
            idx += 1;
        }
        let ghost word = idx as int;
        while idx < count && !Self::is_word_boundary(parts[idx].as_str())
            invariant
                g == texts(parts@),
                count == parts@.len(),
                self.cursor() <= idx <= count,
                over_word(g, idx as int) == over_word(g, word),
            decreases count - idx,
        {
            idx += 1;
        }
        idx
    }

    /// How many lines the text of an input line takes.
    pub fn line_count(query: &str) -> (r: usize)
        requires
            query@.len() < usize::MAX,
        ensures
            r == lines_in(query@),
            r == split_on(query@, '\n').len(),
    {
        let chars = chars_of(query);
        let mut count: usize = 1;
        let mut i: usize = 0;
        while i < chars.len()
            invariant
                i <= chars@.len() < usize::MAX,
                chars@ == query@,
                count == occurrences(query@, '\n', i as int) + 1,
                count <= i + 1,
            decreases chars@.len() - i,
        {
            if chars[i] == '\n' {
                count += 1;
            }
            i += 1;
        }
        proof {
            lemma_pieces_len(query@, '\n', query@.len() as int);
        }
        count
    }
}

/// Where the cursor stands on the screen, from line `i` on: in which line, and before how many
/// of its clusters. A cursor past the end stands at the end of the last line.
pub open spec fn cursor_place(lines: Seq<Seq<Seq<char>>>, i: int, left: int) -> (int, int)
    decreases lines.len() - i,
{
    if i + 1 >= lines.len() {
        (i, if left < lines[i].len() { left } else { lines[i].len() as int })
    } else if left <= lines[i].len() {
        (i, left)
    } else {
        cursor_place(lines, i + 1, left - (lines[i].len() + 1))
    }
}

/// What an input line is drawn from.
pub struct InputLook {
    pub prompt: Seq<char>,
    pub prompt_width: int,
    pub origin: Pos,
    pub width: int,
    pub focused: bool,
    pub text_style: TuiStyle,
    pub cursor_line: int,
    pub cursor_col: int,
}

impl InputLook {
    /// The column where line `i` starts: after the prompt in the first line.
    pub open spec fn line_left(self, i: int) -> int {
        if i == 0 {
            self.prompt_width
        } else {
            0
        }
    }

    /// The cells that line `i` has for its text.
    pub open spec fn line_width(self, i: int) -> int {
        if self.width > self.line_left(i) {
            self.width - self.line_left(i)
        } else {
            0
        }
    }

    /// How many clusters of line `i` are scrolled out of sight on the left, so that the cursor is
    /// visible.
    pub open spec fn line_scroll(self, line: Seq<Seq<char>>, i: int) -> int {
        if i == self.cursor_line && line.len() >= self.line_width(i) && self.cursor_col
            >= self.line_width(i) {
            self.cursor_col - self.line_width(i) + 1
        } else {
            0
        }
    }

    /// How many clusters of line `i` are visible.
    pub open spec fn line_visible(self, line: Seq<Seq<char>>, i: int) -> int {
        let rest = line.len() - self.line_scroll(line, i);
        if rest <= 0 {
            0
        } else if rest < self.line_width(i) {
            rest
        } else {
            self.line_width(i)
        }
    }

    /// The prompt, in front of the first line.
    pub open spec fn prompt_draws(self, i: int) -> Seq<Draw> {
        if i == 0 && self.prompt_width > 0 {
            seq![
                Draw::MoveTo { origin: self.origin, offset: Pos { col_index: 0, row_index: 0 } },
                Draw::Paint { text: self.prompt, style: Some(self.text_style) },
            ]
        } else {
            Seq::empty()
        }
    }

    /// The `k`-th visible cluster of line `i`: the one at the cursor is reversed.
    pub open spec fn cluster_draw(self, line: Seq<Seq<char>>, i: int, k: int) -> Draw {
        let at = self.line_scroll(line, i) + k;
        Draw::Paint {
            text: line[at],
            style: Some(
                if i == self.cursor_line && at == self.cursor_col && self.focused {
                    reversed()
                } else {
                    self.text_style
                },
            ),
        }
    }

    /// The cursor, where it stands behind the last cluster of line `i` and within the width.
    pub open spec fn cursor_draws(self, line: Seq<Seq<char>>, i: int) -> Seq<Draw> {
        let at = self.line_left(i) + if self.cursor_col > self.line_scroll(line, i) {
            self.cursor_col - self.line_scroll(line, i)
        } else {
            0
        };
        if self.focused && i == self.cursor_line && self.cursor_col >= line.len() && at
            < self.width {
            seq![
                Draw::MoveTo {
                    origin: self.origin,
                    offset: Pos { col_index: at as u16, row_index: (i as usize) as u16 },
                },
                Draw::Paint { text: seq![' '], style: Some(reversed()) },
            ]
        } else {
            Seq::empty()
        }
    }

    /// All of line `i`.
    pub open spec fn line_draws(self, line: Seq<Seq<char>>, i: int) -> Seq<Draw> {
        self.prompt_draws(i) + seq![
            Draw::MoveTo {
                origin: self.origin,
                offset: Pos {
                    col_index: (self.line_left(i) as usize) as u16,
                    row_index: (i as usize) as u16,
                },
            },
        ] + Seq::new(
            self.line_visible(line, i) as nat,
            |k: int| self.cluster_draw(line, i, k),
        ) + self.cursor_draws(line, i)
    }

    /// The first `n` lines.
    pub open spec fn all_draws(self, lines: Seq<Seq<Seq<char>>>, n: int) -> Seq<Draw>
        decreases n,
    {
        if n <= 0 {
            Seq::empty()
        } else {
            self.all_draws(lines, n - 1) + self.line_draws(lines[n - 1], n - 1)
        }
    }
}

/// The texts of lists of strings.
pub open spec fn line_texts(lines: Seq<Vec<String>>) -> Seq<Seq<Seq<char>>> {
    Seq::new(lines.len(), |i: int| texts(lines[i]@))
}

/// The clusters of each line of a text.
pub open spec fn clustered_lines(text: Seq<char>) -> Seq<Seq<Seq<char>>> {
    Seq::new(split_on(text, '\n').len(), |i: int| grapheme_clusters(split_on(text, '\n')[i]))
}

/// How an input line with the cursor at `cursor` looks, over the clusters of its lines.
pub open spec fn input_look(
    lines: Seq<Seq<Seq<char>>>,
    cursor: int,
    prompt: Seq<char>,
    prompt_width: int,
    origin: Pos,
    width: int,
    focused: bool,
    colors: (TuiColor, TuiColor),
) -> InputLook {
    InputLook {
        prompt,
        prompt_width,
        origin,
        width,
        focused,
        text_style: colored(colors.1, colors.0),
        cursor_line: cursor_place(lines, 0, cursor).0,
        cursor_col: cursor_place(lines, 0, cursor).1,
    }
}

/// The place of the cursor lies in the text.
proof fn lemma_cursor_place(lines: Seq<Seq<Seq<char>>>, i: int, left: int)
    requires
        0 <= i < lines.len(),
        0 <= left,
    ensures
        i <= cursor_place(lines, i, left).0 < lines.len(),
        0 <= cursor_place(lines, i, left).1 <= lines[cursor_place(lines, i, left).0].len(),
    decreases lines.len() - i,
{
    if i + 1 < lines.len() && left > lines[i].len() {
        lemma_cursor_place(lines, i + 1, left - (lines[i].len() + 1));
    }
}

impl InputLine {
    /// Draws `query` behind `prompt`, line by line, with the cursor in it where it has the focus.
    pub fn render(
        &self,
        ops: &mut Vec<RenderOp>,
        query: &str,
        prompt: &str,
        origin: Pos,
        width: u16,
        focused: bool,
        colors: (TuiColor, TuiColor),
    )
        requires
            query@.len() < usize::MAX,
        ensures
            draws(final(ops)@) == draws(old(ops)@) + input_look(
                clustered_lines(query@),
                self.cursor() as int,
                prompt@,
                grapheme_clusters(prompt@).len() as int,
                origin,
                width as int,
                focused,
                colors,
            ).all_draws(clustered_lines(query@), clustered_lines(query@).len() as int),
    {
        let prompt_parts = split_graphemes(prompt);
        let pieces = split_at_char(query, '\n');
        let ghost all = clustered_lines(query@);
        let mut lines: Vec<Vec<String>> = Vec::new();
        let mut i: usize = 0;
        while i < pieces.len()
            invariant
                i <= pieces@.len(),
                texts(pieces@) == split_on(query@, '\n'),
                all == clustered_lines(query@),
                line_texts(lines@) == all.take(i as int),
                lines@.len() == i,
                query@.len() < usize::MAX,
                forall|j: int| 0 <= j < i ==> (#[trigger] lines@[j])@.len() < usize::MAX,
            decreases pieces@.len() - i,
        {
            let parts = split_graphemes(pieces[i].as_str());
            proof {
                assert(texts(pieces@)[i as int] == pieces@[i as int]@);
                lemma_joined_len(texts(parts@));
                lemma_piece_len(query@, '\n', query@.len() as int, i as int);
            }
            lines.push(parts);
            i += 1;
            assert(line_texts(lines@) =~= all.take(i as int));
        }
        assert(all.take(i as int) =~= all);
        self.render_lines(ops, &lines, prompt, prompt_parts.len(), origin, width, focused, colors);
    }

    /// Draws lines of clusters behind `prompt`, which is `prompt_width` clusters wide.
    pub fn render_lines(
        &self,
        ops: &mut Vec<RenderOp>,
        lines: &Vec<Vec<String>>,
        prompt: &str,
        prompt_width: usize,
        origin: Pos,
        width: u16,
        focused: bool,
        colors: (TuiColor, TuiColor),
    )
        requires
            lines@.len() >= 1,
            forall|j: int| 0 <= j < lines@.len() ==> (#[trigger] lines@[j])@.len() < usize::MAX,
        ensures
            draws(final(ops)@) == draws(old(ops)@) + input_look(
                line_texts(lines@),
                self.cursor() as int,
                prompt@,
                prompt_width as int,
                origin,
                width as int,
                focused,
                colors,
            ).all_draws(line_texts(lines@), lines@.len() as int),
    {
        let ghost all = line_texts(lines@);
        let ghost look = input_look(
            all,
            self.cursor() as int,
            prompt@,
            prompt_width as int,
            origin,
            width as int,
            focused,
            colors,
        );
        let ghost before = draws(ops@);
        let text_style = TuiStyle::of(colors.1, colors.0);
        let (cursor_line, cursor_col) = self.place(lines);
        proof {
            lemma_cursor_place(all, 0, self.cursor() as int);
            assert(cursor_col <= lines@[cursor_line as int]@.len());
        }
        let mut i: usize = 0;
        assert(before + look.all_draws(all, 0) =~= before);
        while i < lines.len()
            invariant
                i <= lines@.len(),
                all == line_texts(lines@),
                look.prompt == prompt@,
                look.prompt_width == prompt_width,
                look.origin == origin,
                look.width == width,
                look.focused == focused,
                look.text_style == text_style,
                look.cursor_line == cursor_line,
                look.cursor_col == cursor_col,
                cursor_col < usize::MAX,
                draws(ops@) == before + look.all_draws(all, i as int),
            decreases lines@.len() - i,
        {
            let ghost so_far = draws(ops@);
            draw_line(
                ops,
                &lines[i],
                i,
                prompt,
                prompt_width,
                origin,
                width,
                focused,
                text_style,
                cursor_line,
                cursor_col,
                Ghost(look),
            );
            proof {
                assert(texts(lines@[i as int]@) == all[i as int]);
                assert((before + look.all_draws(all, i as int)) + look.line_draws(all[i as int], i as int)
                    =~= before + look.all_draws(all, i + 1));
            }
            i += 1;
        }
    }

    /// In which line the cursor stands, and before how many of its clusters.
    fn place(&self, lines: &Vec<Vec<String>>) -> (r: (usize, usize))
        requires
            lines@.len() >= 1,
        ensures
            (r.0 as int, r.1 as int) == cursor_place(
                line_texts(lines@),
                0,
                self.cursor() as int,
            ),
    {
        let ghost all = line_texts(lines@);
        let mut i: usize = 0;
        let mut left: usize = self.cursor;
        while i < lines.len() - 1 && left > lines[i].len()
            invariant
                i < lines@.len(),
                all == line_texts(lines@),
                cursor_place(all, i as int, left as int) == cursor_place(
                    all,
                    0,
                    self.cursor() as int,
                ),
            decreases lines@.len() - i,
        {
            left = left - lines[i].len() - 1;
            i += 1;
        }
        if left > lines[i].len() {
            left = lines[i].len();
        }
        (i, left)
    }
}

/// Draws one line of an input line.
fn draw_line(
    ops: &mut Vec<RenderOp>,
    line: &Vec<String>,
    i: usize,
    prompt: &str,
    prompt_width: usize,
    origin: Pos,
    width: u16,
    focused: bool,
    text_style: TuiStyle,
    cursor_line: usize,
    cursor_col: usize,
    Ghost(look): Ghost<InputLook>,
)
    requires
        look.prompt == prompt@,
        look.prompt_width == prompt_width,
        look.origin == origin,
        look.width == width,
        look.focused == focused,
        look.text_style == text_style,
        look.cursor_line == cursor_line,
        look.cursor_col == cursor_col,
        cursor_col < usize::MAX,
    ensures
        draws(final(ops)@) == draws(old(ops)@) + look.line_draws(texts(line@), i as int),
{
    let ghost before = draws(ops@);
    let ghost parts = texts(line@);
    let width: usize = width as usize;
    let left: usize = if i == 0 {
        prompt_width
    } else {
        0
    };
    let line_width: usize = if width > left {
        width - left
    } else {
        0
    };
    if i == 0 && prompt_width > 0 {
        let ghost first = ops@;
        ops.push(move_to(origin, 0, 0));
        proof {
            lemma_draws_push(first, ops@.last());
        }
        let ghost second = ops@;
        ops.push(paint(copy_of(prompt), Some(text_style)));
        proof {
            lemma_draws_push(second, ops@.last());
        }
    }
    assert(draws(ops@) =~= before + look.prompt_draws(i as int));
    let scroll: usize = if i == cursor_line && line.len() >= line_width && cursor_col
        >= line_width {
        cursor_col - line_width + 1
    } else {
        0
    };
    let ghost third = ops@;
    ops.push(move_to(origin, left as u16, i as u16));
    proof {
        lemma_draws_push(third, ops@.last());
    }
    let ghost head = draws(ops@);
    draw_clusters(
        ops,
        line,
        i,
        scroll,
        line_width,
        focused,
        text_style,
        cursor_line,
        cursor_col,
        Ghost(look),
    );
    let ghost body = draws(ops@);
    draw_cursor(
        ops,
        line,
        i,
        scroll,
        left,
        origin,
        width,
        focused,
        cursor_line,
        cursor_col,
        Ghost(look),
    );
    proof {
        let clusters = Seq::new(
            look.line_visible(parts, i as int) as nat,
            |k: int| look.cluster_draw(parts, i as int, k),
        );
        let start = Draw::MoveTo {
            origin: look.origin,
            offset: Pos {
                col_index: (look.line_left(i as int) as usize) as u16,
                row_index: (i as usize) as u16,
            },
        };
        assert(head =~= before + look.prompt_draws(i as int) + seq![start]);
        assert(draws(ops@) == head + clusters + look.cursor_draws(parts, i as int));
        assert(before + look.prompt_draws(i as int) + seq![start] + clusters + look.cursor_draws(
            parts,
            i as int,
        ) =~= before + (look.prompt_draws(i as int) + seq![start] + clusters
            + look.cursor_draws(parts, i as int)));
    }
}

/// Draws the visible clusters of one line.
fn draw_clusters(
    ops: &mut Vec<RenderOp>,
    line: &Vec<String>,
    i: usize,
    scroll: usize,
    line_width: usize,
    focused: bool,
    text_style: TuiStyle,
    cursor_line: usize,
    cursor_col: usize,
    Ghost(look): Ghost<InputLook>,
)
    requires
        look.focused == focused,
        look.text_style == text_style,
        look.cursor_line == cursor_line,
        look.cursor_col == cursor_col,
        scroll == look.line_scroll(texts(line@), i as int),
        line_width == look.line_width(i as int),
    ensures
        draws(final(ops)@) == draws(old(ops)@) + Seq::new(
            look.line_visible(texts(line@), i as int) as nat,
            |k: int| look.cluster_draw(texts(line@), i as int, k),
        ),
{
    let ghost head = draws(ops@);
    let ghost parts = texts(line@);
    let visible: usize = if line.len() <= scroll {
        0
    } else if line.len() - scroll < line_width {
        line.len() - scroll
    } else {
        line_width
    };
    let ghost clusters = Seq::new(
        visible as nat,
        |k: int| look.cluster_draw(parts, i as int, k),
    );
    let mut k: usize = 0;
    assert(head + clusters.take(0) =~= head);
    while k < visible
        invariant
            k <= visible,
            scroll == look.line_scroll(parts, i as int),
            visible > 0 ==> scroll + visible <= line@.len() <= usize::MAX,
            parts == texts(line@),
            clusters == Seq::new(visible as nat, |k: int| look.cluster_draw(parts, i as int, k)),
            look.focused == focused,
            look.text_style == text_style,
            look.cursor_line == cursor_line,
            look.cursor_col == cursor_col,
            draws(ops@) == head + clusters.take(k as int),
        decreases visible - k,
    {
        let at: usize = scroll + k;
        let style = if i == cursor_line && at == cursor_col && focused {
            TuiStyle::reverse()
        } else {
            text_style
        };
        let ghost so_far = ops@;
        ops.push(paint(copy_of(line[at].as_str()), Some(style)));
        proof {
            lemma_draws_push(so_far, ops@.last());
            assert(clusters[k as int] == look.cluster_draw(parts, i as int, k as int));
            assert(clusters.take(k + 1) =~= clusters.take(k as int).push(clusters[k as int]));
            assert(draws(ops@) =~= head + clusters.take(k + 1));
        }
        k += 1;
    }
    assert(clusters.take(visible as int) =~= clusters);
}

/// Draws the cursor behind the last cluster of its line.
fn draw_cursor(
    ops: &mut Vec<RenderOp>,
    line: &Vec<String>,
    i: usize,
    scroll: usize,
    left: usize,
    origin: Pos,
    width: usize,
    focused: bool,
    cursor_line: usize,
    cursor_col: usize,
    Ghost(look): Ghost<InputLook>,
)
    requires
        look.origin == origin,
        look.width == width,
        width <= u16::MAX,
        look.focused == focused,
        look.cursor_line == cursor_line,
        look.cursor_col == cursor_col,
        scroll == look.line_scroll(texts(line@), i as int),
        left == look.line_left(i as int),
    ensures
        draws(final(ops)@) == draws(old(ops)@) + look.cursor_draws(texts(line@), i as int),
{
    let ghost body = draws(ops@);
    if focused && i == cursor_line && cursor_col >= line.len() {
        let shown: usize = if cursor_col > scroll {
            cursor_col - scroll
        } else {
            0
        };
        if left < width && shown < width - left {
            let ghost first = ops@;
            ops.push(move_to(origin, (left + shown) as u16, i as u16));
            proof {
                lemma_draws_push(first, ops@.last());
            }
            let mut block = String::new();
            block.push(' ');
            assert(block@ =~= seq![' ']);
            let ghost second = ops@;
            ops.push(paint(block, Some(TuiStyle::reverse())));
            proof {
                lemma_draws_push(second, ops@.last());
            }
        }
    }
    assert(draws(ops@) =~= body + look.cursor_draws(texts(line@), i as int));
}

} // verus!
