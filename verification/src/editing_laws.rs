//! What keys do to a text that is edited.

use vstd::prelude::*;
use crate::input::{InputEvent, Key, KeyPress, ModifierKeysMask, SpecialKey};
use crate::input_line::{
    Edited, back_over_separators, back_over_word, character_typed, edited, over_separators,
    over_word, separates, word_end_after, word_start_after, word_start_before,
};
use crate::text::{is_control_code, joined};

verus! {

/// A key without modifiers.
pub open spec fn plain_key(key: SpecialKey) -> InputEvent {
    InputEvent::Keyboard(KeyPress::Plain { key: Key::SpecialKey(key) })
}

/// A character with the control key.
pub open spec fn with_ctrl(c: char) -> InputEvent {
    InputEvent::Keyboard(
        KeyPress::WithModifiers { key: Key::Character(c), mask: ModifierKeysMask::ctrl() },
    )
}

/// Whether an edit leaves a text, with the cursor at a place.
pub open spec fn leaves(e: Edited, text: Seq<char>, cursor: int) -> bool {
    e.text == text && e.cursor == cursor
}

/// A character or a paste goes in where the cursor is, and the cursor goes behind it.
pub proof fn law_text_goes_in_at_cursor(
    g: Seq<Seq<char>>,
    c: int,
    ch: char,
    pasted: String,
    n: int,
)
    requires
        0 <= c <= g.len(),
        !is_control_code(ch),
        pasted@.len() > 0,
    ensures
        leaves(
            edited(g, c, character_typed(ch), 0),
            joined(g.take(c)) + seq![ch] + joined(g.skip(c)),
            c + 1,
        ),
        leaves(
            edited(g, c, InputEvent::BracketedPaste(pasted), n),
            joined(g.take(c)) + pasted@ + joined(g.skip(c)),
            c + n,
        ),
{
}

/// Backspace takes out what stands before the cursor, Delete what stands behind it, and the keys
/// for the rest of the line take out all of it on their side. The rest of the text stays.
pub proof fn law_keys_take_out_their_side(g: Seq<Seq<char>>, c: int)
    requires
        0 <= c <= g.len(),
    ensures
        c > 0 ==> leaves(
            edited(g, c, plain_key(SpecialKey::Backspace), 0),
            joined(g.take(c - 1)) + joined(g.skip(c)),
            c - 1,
        ),
        c < g.len() ==> leaves(
            edited(g, c, plain_key(SpecialKey::Delete), 0),
            joined(g.take(c)) + joined(g.skip(c + 1)),
            c,
        ),
        c < g.len() ==> leaves(
            edited(g, c, with_ctrl('d'), 0),
            joined(g.take(c)) + joined(g.skip(c + 1)),
            c,
        ),
        c < g.len() ==> leaves(edited(g, c, with_ctrl('k'), 0), joined(g.take(c)), c),
        c > 0 ==> leaves(edited(g, c, with_ctrl('u'), 0), joined(g.skip(c)), 0),
        leaves(edited(g, c, with_ctrl('c'), 0), Seq::empty(), 0),
{
    let none = Seq::<char>::empty();
    assert(g.skip(g.len() as int) =~= Seq::<Seq<char>>::empty());
    assert(g.take(0) =~= Seq::<Seq<char>>::empty());
    assert(joined(Seq::<Seq<char>>::empty()) =~= none);
    if c > 0 {
        assert(joined(g.take(c - 1)) + none + joined(g.skip(c)) =~= joined(g.take(c - 1)) + joined(
            g.skip(c),
        ));
        assert(none + none + joined(g.skip(c)) =~= joined(g.skip(c)));
    }
    if c < g.len() {
        assert(joined(g.take(c)) + none + joined(g.skip(c + 1)) =~= joined(g.take(c)) + joined(
            g.skip(c + 1),
        ));
        assert(joined(g.take(c)) + none + none =~= joined(g.take(c)));
    }
}

/// The keys that move the cursor leave the text: by one to the left or the right, to the start, or
/// to the end.
pub proof fn law_cursor_moves_by_keys(g: Seq<Seq<char>>, c: int)
    requires
        0 <= c <= g.len(),
    ensures
        leaves(
            edited(g, c, plain_key(SpecialKey::Left), 0),
            joined(g),
            if c > 0 {
                c - 1
            } else {
                0
            },
        ),
        leaves(
            edited(g, c, plain_key(SpecialKey::Right), 0),
            joined(g),
            if c < g.len() {
                c + 1
            } else {
                c
            },
        ),
        leaves(edited(g, c, plain_key(SpecialKey::Home), 0), joined(g), 0),
        leaves(edited(g, c, plain_key(SpecialKey::End), 0), joined(g), g.len() as int),
        leaves(edited(g, c, with_ctrl('a'), 0), joined(g), 0),
        leaves(edited(g, c, with_ctrl('e'), 0), joined(g), g.len() as int),
{
}

/// Whether all clusters from one place up to another separate words, or none of them does.
pub open spec fn all_separate(g: Seq<Seq<char>>, from: int, to: int, yes: bool) -> bool {
    forall|k: int| from <= k < to ==> separates(#[trigger] g[k]) == yes
}

proof fn lemma_back(g: Seq<Seq<char>>, i: int)
    requires
        0 <= i < g.len(),
    ensures
        0 <= back_over_separators(g, i) <= i,
        all_separate(g, back_over_separators(g, i) + 1, i + 1, true),
        back_over_separators(g, i) > 0 ==> !separates(g[back_over_separators(g, i)]),
        0 <= back_over_word(g, i) <= i,
        all_separate(g, back_over_word(g, i) + 1, i + 1, false),
        back_over_word(g, i) > 0 ==> separates(g[back_over_word(g, i)]),
    decreases i,
{
    if i > 0 {
        lemma_back(g, i - 1);
    }
}

proof fn lemma_on(g: Seq<Seq<char>>, i: int)
    requires
        0 <= i <= g.len(),
    ensures
        i <= over_separators(g, i) <= g.len(),
        all_separate(g, i, over_separators(g, i), true),
        over_separators(g, i) < g.len() ==> !separates(g[over_separators(g, i)]),
        i <= over_word(g, i) <= g.len(),
        all_separate(g, i, over_word(g, i), false),
        over_word(g, i) < g.len() ==> separates(g[over_word(g, i)]),
    decreases g.len() - i,
{
    if i < g.len() {
        lemma_on(g, i + 1);
    }
}

/// The word before the cursor starts behind a separator, or at the start of the text, and nothing
/// but separators stands between the word and the cursor. A separator that starts the text belongs
/// to the word behind it.
pub proof fn law_word_before_cursor(g: Seq<Seq<char>>, c: int)
    requires
        0 <= c <= g.len(),
    ensures
        ({
            let start = word_start_before(g, c);
            &&& 0 <= start <= c
            &&& start > 0 ==> separates(g[start - 1])
            &&& exists|end: int|
                #![trigger all_separate(g, end, c, true)]
                start <= end <= c && all_separate(
                    g,
                    if start > 0 {
                        start
                    } else {
                        1
                    },
                    end,
                    false,
                ) && all_separate(g, end, c, true) && (start < end || start == 0)
        }),
{
    let start = word_start_before(g, c);
    if g.len() > 0 && c > 0 {
        let word = back_over_separators(g, c - 1);
        lemma_back(g, c - 1);
        lemma_back(g, word);
        if word == 0 && separates(g[0]) {
            assert(all_separate(g, 0, c, true));
            assert(all_separate(g, 0, 0, false));
        } else {
            assert(all_separate(g, word + 1, c, true));
            assert(all_separate(g, back_over_word(g, word) + 1, word + 1, false));
        }
    } else {
        assert(all_separate(g, 0, c, true));
        assert(all_separate(g, 0, 0, false));
    }
}

/// The next word starts where the word at the cursor and the separators behind it end; and the word
/// at or behind the cursor ends before a separator, or at the end.
pub proof fn law_words_behind_cursor(g: Seq<Seq<char>>, c: int)
    requires
        0 <= c <= g.len(),
    ensures
        ({
            let next = word_start_after(g, c);
            &&& c <= next <= g.len()
            &&& next < g.len() ==> !separates(g[next])
            &&& exists|end: int|
                #![trigger all_separate(g, c, end, false)]
                c <= end <= next && all_separate(g, c, end, false) && all_separate(
                    g,
                    end,
                    next,
                    true,
                )
        }),
        ({
            let end = word_end_after(g, c);
            &&& c <= end <= g.len()
            &&& end < g.len() ==> separates(g[end])
            &&& exists|from: int|
                #![trigger all_separate(g, c, from, true)]
                c <= from <= end && all_separate(g, c, from, true) && all_separate(
                    g,
                    from,
                    end,
                    false,
                )
        }),
{
    lemma_on(g, c);
    lemma_on(g, over_word(g, c));
    lemma_on(g, over_separators(g, c));
    assert(all_separate(g, c, over_word(g, c), false));
    assert(all_separate(g, c, over_separators(g, c), true));
    if c == g.len() {
        assert(all_separate(g, c, c, false));
        assert(all_separate(g, c, c, true));
    }
}

/// The keys for words move the cursor to where words start, and take out what lies between.
pub proof fn law_word_keys(g: Seq<Seq<char>>, c: int)
    requires
        0 <= c <= g.len(),
    ensures
        ({
            let back = word_start_before(g, c);
            let on = word_start_after(g, c);
            let ctrl = |key: SpecialKey|
                InputEvent::Keyboard(
                    KeyPress::WithModifiers {
                        key: Key::SpecialKey(key),
                        mask: ModifierKeysMask::ctrl(),
                    },
                );
            let alt = |ch: char|
                InputEvent::Keyboard(
                    KeyPress::WithModifiers {
                        key: Key::Character(ch),
                        mask: ModifierKeysMask::alt(),
                    },
                );
            &&& leaves(edited(g, c, ctrl(SpecialKey::Left), 0), joined(g), back)
            &&& leaves(edited(g, c, ctrl(SpecialKey::Right), 0), joined(g), on)
            &&& leaves(edited(g, c, alt('b'), 0), joined(g), back)
            &&& leaves(edited(g, c, alt('f'), 0), joined(g), on)
            &&& back < c ==> leaves(
                edited(g, c, with_ctrl('w'), 0),
                joined(g.take(back)) + joined(g.skip(c)),
                back,
            )
            &&& c < word_end_after(g, c) ==> leaves(
                edited(g, c, alt('d'), 0),
                joined(g.take(c)) + joined(g.skip(word_end_after(g, c))),
                c,
            )
        }),
{
    let none = Seq::<char>::empty();
    let back = word_start_before(g, c);
    let end = word_end_after(g, c);
    assert(joined(g.take(back)) + none + joined(g.skip(c)) =~= joined(g.take(back)) + joined(
        g.skip(c),
    ));
    assert(joined(g.take(c)) + none + joined(g.skip(end)) =~= joined(g.take(c)) + joined(
        g.skip(end),
    ));
}

} // verus!
