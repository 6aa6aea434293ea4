//! The word, the white space or the URL around a place in a text.

use vstd::prelude::*;
use crate::text::{is_white_space, is_whitespace, text_of};

verus! {

/// Whether a text parses as a URL.
pub uninterp spec fn url_parses(text: Seq<char>) -> bool;

/// `url::Url::parse`: whether it accepts a text depends on the text alone.
#[verifier::external_body]
pub(crate) fn parses_as_url(text: &str) -> (r: bool)
    ensures
        r == url_parses(text@),
{
    url::Url::parse(text).is_ok()
}

/// Whether a character is a letter or a number to Unicode.
pub uninterp spec fn alphanumeric(c: char) -> bool;

/// `char::is_alphanumeric`: a property of the character alone.
#[verifier::external_body]
pub(crate) fn is_alphanumeric(c: char) -> (r: bool)
    ensures
        r == alphanumeric(c),
{
    c.is_alphanumeric()
}

/// A character at which a URL ends.
pub open spec fn ends_url(c: char) -> bool {
    is_white_space(c) || c == '"' || c == ')' || c == ']' || c == '}'
}

/// The classes of characters that runs are made of.
#[derive(Clone, Copy)]
pub enum Run {
    /// White space.
    Space,
    /// What a URL can hold.
    Url,
    /// Letters, numbers and `_`.
    Word,
}

/// Whether a character belongs to a run. `words` says which places hold letters or numbers.
pub open spec fn in_run(text: Seq<char>, words: Seq<bool>, run: Run, i: int) -> bool {
    match run {
        Run::Space => is_white_space(text[i]),
        Run::Url => !ends_url(text[i]),
        Run::Word => words[i] || text[i] == '_',
    }
}

/// Where the run that holds place `i` starts, or `i` where it holds no such run.
pub open spec fn run_start(text: Seq<char>, words: Seq<bool>, run: Run, i: int) -> int
    decreases i,
{
    if in_run(text, words, run, i) && i > 0 && in_run(text, words, run, i - 1) {
        run_start(text, words, run, i - 1)
    } else {
        i
    }
}

/// Where the run that holds place `i` ends, or the place after `i` where it holds no such run.
pub open spec fn run_end(text: Seq<char>, words: Seq<bool>, run: Run, i: int) -> int
    decreases text.len() - i,
{
    if in_run(text, words, run, i) && i + 1 < text.len() && in_run(text, words, run, i + 1) {
        run_end(text, words, run, i + 1)
    } else {
        i + 1
    }
}

/// Whether `text` holds the mark between the scheme and the rest of a URL.
pub open spec fn holds_scheme_mark(text: Seq<char>) -> bool {
    exists|i: int| #[trigger] scheme_mark_at(text, i)
}

/// Whether the mark stands at place `i`.
pub open spec fn scheme_mark_at(text: Seq<char>, i: int) -> bool {
    0 <= i && i + 2 < text.len() && text[i] == ':' && text[i + 1] == '/' && text[i + 2] == '/'
}

/// Whether the text from place `i` up to `end` is a URL.
pub open spec fn is_url_from(text: Seq<char>, i: int, end: int) -> bool {
    holds_scheme_mark(text.subrange(i, end)) && url_parses(text.subrange(i, end))
}

/// The first place from `from` up to `at` at which a URL starts that ends at `end`.
pub open spec fn first_url(text: Seq<char>, from: int, at: int, end: int) -> Option<int>
    decreases at + 1 - from,
{
    if from > at {
        None
    } else if is_url_from(text, from, end) {
        Some(from)
    } else {
        first_url(text, from + 1, at, end)
    }
}

/// The span that is selected at place `k`, where `url` is the start of the URL that holds it and
/// `words` says which places hold letters or numbers.
pub open spec fn span(text: Seq<char>, words: Seq<bool>, url: Option<int>, k: int) -> (int, int) {
    if is_white_space(text[k]) {
        (run_start(text, words, Run::Space, k), run_end(text, words, Run::Space, k))
    } else {
        match url {
            Some(start) => (start, run_end(text, words, Run::Url, k)),
            None => (run_start(text, words, Run::Word, k), run_end(text, words, Run::Word, k)),
        }
    }
}

/// Which places of a text hold letters or numbers.
pub open spec fn word_places(text: Seq<char>) -> Seq<bool> {
    Seq::new(text.len(), |i: int| alphanumeric(text[i]))
}

/// The start of the URL that holds place `k`.
pub open spec fn url_at(text: Seq<char>, k: int) -> Option<int> {
    if ends_url(text[k]) {
        None
    } else {
        first_url(
            text,
            run_start(text, Seq::empty(), Run::Url, k),
            k,
            run_end(text, Seq::empty(), Run::Url, k),
        )
    }
}

/// The span that is selected at place `k`: the run of white space that holds it, or the URL that
/// holds it, or the run of letters, numbers and `_`, or the character alone.
pub open spec fn word_span(text: Seq<char>, k: int) -> (int, int) {
    span(text, word_places(text), url_at(text, k), k)
}

/// A run starts at or before the place it holds.
pub proof fn lemma_run_start(text: Seq<char>, words: Seq<bool>, run: Run, i: int)
    requires
        0 <= i,
    ensures
        0 <= run_start(text, words, run, i) <= i,
        in_run(text, words, run, i) ==> forall|j: int|
            run_start(text, words, run, i) <= j <= i ==> in_run(text, words, run, j),
        run_start(text, words, run, i) > 0 && in_run(text, words, run, i) ==> !in_run(
            text,
            words,
            run,
            run_start(text, words, run, i) - 1,
        ),
    decreases i,
{
    if in_run(text, words, run, i) && i > 0 && in_run(text, words, run, i - 1) {
        lemma_run_start(text, words, run, i - 1);
    }
}

/// A run ends behind the place it holds.
pub proof fn lemma_run_end(text: Seq<char>, words: Seq<bool>, run: Run, i: int)
    requires
        0 <= i < text.len(),
    ensures
        i < run_end(text, words, run, i) <= text.len(),
        in_run(text, words, run, i) ==> forall|j: int|
            i <= j < run_end(text, words, run, i) ==> in_run(text, words, run, j),
    decreases text.len() - i,
{
    if in_run(text, words, run, i) && i + 1 < text.len() && in_run(text, words, run, i + 1) {
        lemma_run_end(text, words, run, i + 1);
    }
}

/// A URL that is found starts within the places that were looked at.
pub proof fn lemma_first_url(text: Seq<char>, from: int, at: int, end: int)
    ensures
        first_url(text, from, at, end) matches Some(i) ==> from <= i <= at && is_url_from(
            text,
            i,
            end,
        ),
    decreases at + 1 - from,
{
    if from <= at && !is_url_from(text, from, end) {
        lemma_first_url(text, from + 1, at, end);
    }
}

/// The selected span holds the place it was selected at, and lies in the text.
pub proof fn law_word_span_holds_place(text: Seq<char>, k: int)
    requires
        0 <= k < text.len(),
    ensures
        0 <= word_span(text, k).0 <= k < word_span(text, k).1 <= text.len(),
{
    let words = word_places(text);
    lemma_run_start(text, words, Run::Space, k);
    lemma_run_end(text, words, Run::Space, k);
    lemma_run_start(text, words, Run::Word, k);
    lemma_run_end(text, words, Run::Word, k);
    lemma_run_end(text, words, Run::Url, k);
    lemma_run_start(text, Seq::empty(), Run::Url, k);
    lemma_first_url(
        text,
        run_start(text, Seq::empty(), Run::Url, k),
        k,
        run_end(text, Seq::empty(), Run::Url, k),
    );
}

/// Selecting white space, or a word that is in no URL, gives the same span at every place in it.
pub proof fn law_span_is_the_same_all_over(text: Seq<char>, words: Seq<bool>, k: int, m: int)
    requires
        0 <= k < text.len(),
        words.len() == text.len(),
        is_white_space(text[k]) || in_run(text, words, Run::Word, k),
        span(text, words, None, k).0 <= m < span(text, words, None, k).1,
        !is_white_space('_'),
        forall|i: int| 0 <= i < text.len() && words[i] ==> !is_white_space(text[i]),
    ensures
        span(text, words, None, m) == span(text, words, None, k),
{
    let run = if is_white_space(text[k]) {
        Run::Space
    } else {
        Run::Word
    };
    lemma_run_start(text, words, run, k);
    lemma_run_end(text, words, run, k);
    if m <= k {
        lemma_run_same_start(text, words, run, m, k);
        lemma_run_same_end(text, words, run, m, k);
    } else {
        lemma_run_same_start(text, words, run, k, m);
        lemma_run_same_end(text, words, run, k, m);
    }
}

/// Two places of one run have the same start.
proof fn lemma_run_same_start(text: Seq<char>, words: Seq<bool>, run: Run, a: int, b: int)
    requires
        0 <= a <= b,
        forall|j: int| a <= j <= b ==> in_run(text, words, run, j),
    ensures
        run_start(text, words, run, a) == run_start(text, words, run, b),
    decreases b - a,
{
    if a < b {
        lemma_run_same_start(text, words, run, a, b - 1);
    }
}

/// Two places of one run have the same end.
proof fn lemma_run_same_end(text: Seq<char>, words: Seq<bool>, run: Run, a: int, b: int)
    requires
        0 <= a <= b < text.len(),
        forall|j: int| a <= j <= b ==> in_run(text, words, run, j),
    ensures
        run_end(text, words, run, a) == run_end(text, words, run, b),
    decreases b - a,
{
    if a < b {
        lemma_run_same_end(text, words, run, a + 1, b);
    }
}

fn place_in_run(chars: &Vec<char>, words: &Vec<bool>, run: Run, i: usize) -> (r: bool)
    requires
        i < chars@.len(),
        run is Word ==> words@.len() == chars@.len(),
    ensures
        r == in_run(chars@, words@, run, i as int),
{
    let c = chars[i];
    match run {
        Run::Space => is_whitespace(c),
        Run::Url => !(is_whitespace(c) || c == '"' || c == ')' || c == ']' || c == '}'),
        Run::Word => words[i] || c == '_',
    }
}

fn find_run_start(chars: &Vec<char>, words: &Vec<bool>, run: Run, k: usize) -> (r: usize)
    requires
        k < chars@.len(),
        run is Word ==> words@.len() == chars@.len(),
    ensures
        r == run_start(chars@, words@, run, k as int),
        r <= k,
{
    let mut i: usize = k;
    if !place_in_run(chars, words, run, i) {
        return i;
    }
    while i > 0 && place_in_run(chars, words, run, i - 1)
        invariant
            i <= k < chars@.len(),
            run is Word ==> words@.len() == chars@.len(),
            in_run(chars@, words@, run, i as int),
            run_start(chars@, words@, run, i as int) == run_start(chars@, words@, run, k as int),
        decreases i,
    {
        i -= 1;
    }
    i
}

fn find_run_end(chars: &Vec<char>, words: &Vec<bool>, run: Run, k: usize) -> (r: usize)
    requires
        k < chars@.len(),
        run is Word ==> words@.len() == chars@.len(),
    ensures
        r == run_end(chars@, words@, run, k as int),
        k < r <= chars@.len(),
{
    let n: usize = chars.len();
    let mut i: usize = k;
    if !place_in_run(chars, words, run, i) {
        return i + 1;
    }
    while i + 1 < n && place_in_run(chars, words, run, i + 1)
        invariant
            k <= i < n,
            n == chars@.len(),
            run is Word ==> words@.len() == chars@.len(),
            in_run(chars@, words@, run, i as int),
            run_end(chars@, words@, run, i as int) == run_end(chars@, words@, run, k as int),
        decreases chars@.len() - i,
    {
        i += 1;
    }
    i + 1
}

/// Whether the characters from `from` up to `to` hold the mark behind a URL's scheme.
fn has_scheme_mark(chars: &Vec<char>, from: usize, to: usize) -> (r: bool)
    requires
        from <= to <= chars@.len(),
    ensures
        r == holds_scheme_mark(chars@.subrange(from as int, to as int)),
{
    let ghost part = chars@.subrange(from as int, to as int);
    let mut i: usize = from;
    while i < to && to - i > 2
        invariant
            from <= i <= to <= chars@.len(),
            part == chars@.subrange(from as int, to as int),
            forall|j: int| 0 <= j < i - from ==> !#[trigger] scheme_mark_at(part, j),
        decreases to - i,
    {
        if chars[i] == ':' && chars[i + 1] == '/' && chars[i + 2] == '/' {
            assert(scheme_mark_at(part, i - from));
            return true;
        }
        i += 1;
    }
    assert forall|j: int| !#[trigger] scheme_mark_at(part, j) by {}
    false
}

/// The start of the URL that holds place `k`.
fn find_url(chars: &Vec<char>, k: usize) -> (r: Option<usize>)
    requires
        k < chars@.len(),
    ensures
        match r {
            Some(i) => url_at(chars@, k as int) == Some(i as int),
            None => url_at(chars@, k as int) is None,
        },
        r matches Some(i) ==> i <= k,
{
    let none: Vec<bool> = Vec::new();
    assert(none@ =~= Seq::<bool>::empty());
    if !place_in_run(chars, &none, Run::Url, k) {
        return None;
    }
    let start: usize = find_run_start(chars, &none, Run::Url, k);
    let end: usize = find_run_end(chars, &none, Run::Url, k);
    let mut i: usize = start;
    while i <= k
        invariant
            start <= i <= k + 1,
            k < end <= chars@.len(),
            !ends_url(chars@[k as int]),
            start == run_start(chars@, Seq::empty(), Run::Url, k as int),
            end == run_end(chars@, Seq::empty(), Run::Url, k as int),
            first_url(chars@, i as int, k as int, end as int) == first_url(
                chars@,
                start as int,
                k as int,
                end as int,
            ),
        decreases k + 1 - i,
    {
        if has_scheme_mark(chars, i, end) {
            let part = text_of(chars, i, end);
            if parses_as_url(part.as_str()) {
                return Some(i);
            }
        }
        i += 1;
    }
    None
}

/// The span that is selected at place `k`, where `url` is the start of the URL that holds it and
/// `words` says which places hold letters or numbers.
pub fn span_at(chars: &Vec<char>, words: &Vec<bool>, url: Option<usize>, k: usize) -> (r: (
    usize,
    usize,
))
    requires
        k < chars@.len(),
        words@.len() == chars@.len(),
    ensures
        (r.0 as int, r.1 as int) == span(
            chars@,
            words@,
            match url {
                Some(i) => Some(i as int),
                None => None,
            },
            k as int,
        ),
{
    if is_whitespace(chars[k]) {
        (
            find_run_start(chars, words, Run::Space, k),
            find_run_end(chars, words, Run::Space, k),
        )
    } else {
        match url {
            Some(start) => (start, find_run_end(chars, words, Run::Url, k)),
            None => (
                find_run_start(chars, words, Run::Word, k),
                find_run_end(chars, words, Run::Word, k),
            ),
        }
    }
}

/// The span that is selected at place `k`.
pub fn word_span_at(chars: &Vec<char>, k: usize) -> (r: (usize, usize))
    requires
        k < chars@.len(),
    ensures
        (r.0 as int, r.1 as int) == word_span(chars@, k as int),
        r.0 <= k < r.1 <= chars@.len(),
{
    let mut words: Vec<bool> = Vec::new();
    let mut i: usize = 0;
    while i < chars.len()
        invariant
            i <= chars@.len(),
            words@ == word_places(chars@).take(i as int),
        decreases chars@.len() - i,
    {
        words.push(is_alphanumeric(chars[i]));
        i += 1;
        assert(words@ =~= word_places(chars@).take(i as int));
    }
    assert(words@ =~= word_places(chars@));
    let url = find_url(chars, k);
    proof {
        law_word_span_holds_place(chars@, k as int);
    }
    span_at(chars, &words, url, k)
}

} // verus!
