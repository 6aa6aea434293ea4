//! Fuzzy matching, and the order of what it finds.

use nucleo::pattern::{CaseMatching, Normalization, Pattern};
use nucleo::{Config, Matcher, Utf32Str};
use vstd::prelude::*;
use crate::screen::lesser;
use crate::text::chars_of;

verus! {

/// What kind of text is searched.
#[derive(Clone, Copy, Debug, PartialEq, Eq, Structural)]
pub enum Haystack {
    /// A path: what follows a separator starts a word.
    Path,
    /// A name.
    Name,
}

/// Whether a query holds nothing to search for.
pub uninterp spec fn nothing_to_find(query: Seq<char>) -> bool;

/// `Pattern::parse`, with smart case and smart normalization: whether the pattern has any atoms
/// depends on the query alone.
#[verifier::external_body]
pub(crate) fn is_blank(query: &str) -> (r: bool)
    ensures
        r == nothing_to_find(query@),
{
    Pattern::parse(query, CaseMatching::Smart, Normalization::Smart).atoms.is_empty()
}

/// How well a text matches a query, and which of its characters do, as far as it matches.
pub uninterp spec fn fuzzy_match(query: Seq<char>, text: Seq<char>, kind: Haystack) -> Option<
    (u32, Seq<u32>),
>;

/// The scores of a match can be added up: no character adds more than 36 to the score of a part
/// of the query, which has 16 bits, and to that of the query, which has 32.
pub open spec fn can_score(query: Seq<char>, text: Seq<char>) -> bool {
    &&& 36 * query.len() <= u32::MAX
    &&& 36 * lesser(query.len() as int, text.len() as int) <= u16::MAX
    &&& text.len() <= u32::MAX
}

/// `Pattern::indices`, with smart case and smart normalization: the score and the places, in the
/// order in which they were found, depend on the query, the text and its kind alone.
#[verifier::external_body]
pub(crate) fn find_match(query: &str, text: &str, kind: Haystack) -> (r: Option<(u32, Vec<u32>)>)
    requires
        can_score(query@, text@),
    ensures
        match r {
            Some((score, places)) => fuzzy_match(query@, text@, kind) == Some((score, places@)),
            None => fuzzy_match(query@, text@, kind) is None,
        },
{
    let pattern = Pattern::parse(query, CaseMatching::Smart, Normalization::Smart);
    let mut matcher = Matcher::new(
        match kind {
            Haystack::Path => Config::DEFAULT.match_paths(),
            Haystack::Name => Config::DEFAULT,
        },
    );
    let mut places: Vec<u32> = Vec::new();
    let mut buf: Vec<char> = Vec::new();
    let score = pattern.indices(Utf32Str::new(text, &mut buf), &mut matcher, &mut places);
    score.map(|score| (score, places))
}

/// Whether the scores of a match can be added up.
pub fn scores_fit(query: &str, text: &str) -> (r: bool)
    ensures
        r == can_score(query@, text@),
{
    let q: u128 = chars_of(query).len() as u128;
    let t: u128 = chars_of(text).len() as u128;
    let least: u128 = if q < t {
        q
    } else {
        t
    };
    36 * q <= u32::MAX as u128 && 36 * least <= u16::MAX as u128 && t <= u32::MAX as u128
}

/// How well a text matches a query. A text whose scores cannot be added up is left out.
pub open spec fn match_found(query: Seq<char>, text: Seq<char>, kind: Haystack) -> Option<
    (u32, Seq<u32>),
> {
    if can_score(query, text) {
        fuzzy_match(query, text, kind)
    } else {
        None
    }
}

/// Matches a text against a query, and leaves it out where its scores cannot be added up.
pub fn look_for(query: &str, text: &str, kind: Haystack) -> (r: Option<(u32, Vec<u32>)>)
    ensures
        match r {
            Some((score, places)) => match_found(query@, text@, kind) == Some((score, places@)),
            None => match_found(query@, text@, kind) is None,
        },
{
    if scores_fit(query, text) {
        find_match(query, text, kind)
    } else {
        None
    }
}

/// A place is put among others that go up, unless it is there.
pub open spec fn with_place(places: Seq<u32>, x: u32) -> Seq<u32>
    decreases places.len(),
{
    if places.len() == 0 {
        seq![x]
    } else if places.last() < x {
        places.push(x)
    } else if places.last() == x {
        places
    } else {
        with_place(places.drop_last(), x).push(places.last())
    }
}

/// The first `n` places, each once, going up.
pub open spec fn sorted_places(places: Seq<u32>, n: int) -> Seq<u32>
    decreases n,
{
    if n <= 0 {
        Seq::empty()
    } else {
        with_place(sorted_places(places, n - 1), places[n - 1])
    }
}

/// The places go up.
pub open spec fn going_up(places: Seq<u32>) -> bool {
    forall|i: int, j: int| 0 <= i < j < places.len() ==> places[i] < places[j]
}

proof fn lemma_with_place(places: Seq<u32>, x: u32)
    requires
        going_up(places),
    ensures
        going_up(with_place(places, x)),
        forall|y: u32| #[trigger]
            with_place(places, x).contains(y) <==> y == x || places.contains(y),
    decreases places.len(),
{
    let next = with_place(places, x);
    if places.len() == 0 {
        assert(next[0] == x);
    } else if places.last() < x {
        assert forall|y: u32| #[trigger] next.contains(y) <==> y == x || places.contains(y) by {
            assert(next[places.len() as int] == x);
            if places.contains(y) {
                let i = choose|i: int| 0 <= i < places.len() && places[i] == y;
                assert(next[i] == y);
            }
        }
    } else if places.last() == x {
        assert(places[places.len() - 1] == x);
    } else {
        let rest = places.drop_last();
        lemma_with_place(rest, x);
        let part = with_place(rest, x);
        let last = places.last();
        assert forall|y: u32| #[trigger] next.contains(y) <==> y == x || places.contains(y) by {
            assert(next[next.len() - 1] == last);
            assert(places[places.len() - 1] == last);
            if part.contains(y) {
                let i = choose|i: int| 0 <= i < part.len() && part[i] == y;
                assert(next[i] == y);
                if rest.contains(y) {
                    let k = choose|k: int| 0 <= k < rest.len() && rest[k] == y;
                    assert(places[k] == y);
                }
            }
            if next.contains(y) && y != last {
                let i = choose|i: int| 0 <= i < next.len() && next[i] == y;
                assert(part[i] == y);
            }
            if places.contains(y) && y != last {
                let k = choose|k: int| 0 <= k < places.len() && places[k] == y;
                assert(rest[k] == y);
            }
        }
        assert forall|i: int, j: int| 0 <= i < j < next.len() implies next[i] < next[j] by {
            if j == next.len() - 1 {
                assert(part.contains(part[i]));
                if rest.contains(part[i]) {
                    let k = choose|k: int| 0 <= k < rest.len() && rest[k] == part[i];
                    assert(places[k] < places[places.len() - 1]);
                }
            }
        }
    }
}

/// The sorted places go up, and are the places.
pub proof fn law_sorted_places_are_the_places(places: Seq<u32>, n: int)
    requires
        0 <= n <= places.len(),
    ensures
        going_up(sorted_places(places, n)),
        forall|y: u32| #[trigger]
            sorted_places(places, n).contains(y) <==> places.take(n).contains(y),
    decreases n,
{
    if n > 0 {
        law_sorted_places_are_the_places(places, n - 1);
        let before = sorted_places(places, n - 1);
        lemma_with_place(before, places[n - 1]);
        assert(places.take(n) =~= places.take(n - 1).push(places[n - 1]));
        assert forall|y: u32| #[trigger]
            sorted_places(places, n).contains(y) <==> places.take(n).contains(y) by {
            let short = places.take(n - 1);
            let long = places.take(n);
            assert(before.contains(y) <==> short.contains(y));
            if short.contains(y) {
                let i = choose|i: int| 0 <= i < short.len() && short[i] == y;
                assert(long[i] == y);
            }
            if y == places[n - 1] {
                assert(long[n - 1] == y);
            }
            if long.contains(y) && y != places[n - 1] {
                let i = choose|i: int| 0 <= i < long.len() && long[i] == y;
                assert(short[i] == y);
            }
        }
    } else {
        assert(places.take(0) =~= Seq::<u32>::empty());
    }
}

/// Sorts places, and leaves each of them once.
pub fn sort_places(places: &Vec<u32>) -> (r: Vec<u32>)
    ensures
        r@ == sorted_places(places@, places@.len() as int),
{
    let mut out: Vec<u32> = Vec::new();
    let mut i: usize = 0;
    while i < places.len()
        invariant
            i <= places@.len(),
            out@ == sorted_places(places@, i as int),
        decreases places@.len() - i,
    {
        let x: u32 = places[i];
        let ghost before = out@;
        let mut k: usize = out.len();
        assert(before.take(k as int) =~= before);
        assert(with_place(before.take(k as int), x) + before.skip(k as int) =~= with_place(before, x));
        while k > 0 && out[k - 1] > x
            invariant
                k <= out@.len(),
                out@ == before,
                with_place(before.take(k as int), x) + before.skip(k as int) == with_place(
                    before,
                    x,
                ),
            decreases k,
        {
            proof {
                let short = before.take(k as int);
                assert(short.drop_last() =~= before.take(k - 1));
                assert(with_place(before.take(k - 1), x).push(before[k - 1]) + before.skip(k as int)
                    =~= with_place(before.take(k - 1), x) + before.skip(k - 1));
            }
            k -= 1;
        }
        if k > 0 && out[k - 1] == x {
            proof {
                assert(before.take(k as int) + before.skip(k as int) =~= before);
            }
        } else {
            out.insert(k, x);
            proof {
                let short = before.take(k as int);
                assert(with_place(short, x) =~= short.push(x));
                assert(out@ =~= short.push(x) + before.skip(k as int));
            }
        }
        i += 1;
    }
    out
}

/// Something is put among others with the best in front, behind those that match as well.
pub open spec fn with_found<T>(
    found: Seq<(T, u32, Seq<u32>)>,
    x: (T, u32, Seq<u32>),
) -> Seq<(T, u32, Seq<u32>)>
    decreases found.len(),
{
    if found.len() == 0 || found.last().1 >= x.1 {
        found.push(x)
    } else {
        with_found(found.drop_last(), x).push(found.last())
    }
}

/// The first `n` of what was found, with the best in front, and what matches as well in the order
/// in which it was found.
pub open spec fn ranked<T>(found: Seq<(T, u32, Seq<u32>)>, n: int) -> Seq<(T, u32, Seq<u32>)>
    decreases n,
{
    if n <= 0 {
        Seq::empty()
    } else {
        with_found(ranked(found, n - 1), found[n - 1])
    }
}

/// What was found without the scores.
pub open spec fn without_scores<T>(found: Seq<(T, u32, Seq<u32>)>) -> Seq<(T, Seq<u32>)> {
    Seq::new(found.len(), |i: int| (found[i].0, found[i].2))
}

/// No better match stands behind a worse one.
pub open spec fn best_first<T>(found: Seq<(T, u32, Seq<u32>)>) -> bool {
    forall|i: int, j: int|
        #![trigger found[i], found[j]]
        0 <= i < j < found.len() ==> found[i].1 >= found[j].1
}

proof fn lemma_with_found<T>(found: Seq<(T, u32, Seq<u32>)>, x: (T, u32, Seq<u32>))
    requires
        best_first(found),
    ensures
        best_first(with_found(found, x)),
        with_found(found, x).to_multiset() == found.to_multiset().insert(x),
        forall|i: int|
            0 <= i < with_found(found, x).len() ==> (#[trigger] with_found(found, x)[i]).1 == x.1
                || exists|k: int| 0 <= k < found.len() && (#[trigger] found[k]).1 == with_found(
                found,
                x,
            )[i].1,
    decreases found.len(),
{
    broadcast use vstd::seq_lib::group_to_multiset_ensures;

    let next = with_found(found, x);
    if found.len() == 0 || found.last().1 >= x.1 {
        assert forall|i: int| 0 <= i < next.len() implies (#[trigger] next[i]).1 == x.1
            || exists|k: int| 0 <= k < found.len() && (#[trigger] found[k]).1 == next[i].1 by {
            if i < found.len() {
                assert(found[i].1 == next[i].1);
            }
        }
    } else {
        let rest = found.drop_last();
        let part = with_found(rest, x);
        let last = found.last();
        lemma_with_found(rest, x);
        assert(next.to_multiset() =~= found.to_multiset().insert(x)) by {
            assert(found =~= rest.push(last));
        }
        assert forall|i: int, j: int|
            #![trigger next[i], next[j]]
            0 <= i < j < next.len() implies next[i].1 >= next[j].1 by {
            if j == next.len() - 1 {
                assert(part[i].1 == x.1 || exists|k: int|
                    0 <= k < rest.len() && (#[trigger] rest[k]).1 == part[i].1);
                if part[i].1 != x.1 {
                    let k = choose|k: int| 0 <= k < rest.len() && (#[trigger] rest[k]).1 == part[i].1;
                    assert(found[k].1 >= found[found.len() - 1].1);
                }
            } else {
                assert(part[i].1 >= part[j].1);
            }
        }
        assert forall|i: int| 0 <= i < next.len() implies (#[trigger] next[i]).1 == x.1
            || exists|k: int| 0 <= k < found.len() && (#[trigger] found[k]).1 == next[i].1 by {
            if i == next.len() - 1 {
                assert(found[found.len() - 1].1 == next[i].1);
            } else if part[i].1 != x.1 {
                let k = choose|k: int| 0 <= k < rest.len() && (#[trigger] rest[k]).1 == part[i].1;
                assert(found[k].1 == next[i].1);
            }
        }
    }
}

/// What is put among others is there then, with all of them, and is the only thing that is new.
pub proof fn lemma_with_found_members<T>(
    found: Seq<(T, u32, Seq<u32>)>,
    x: (T, u32, Seq<u32>),
)
    ensures
        forall|i: int|
            0 <= i < with_found(found, x).len() ==> (#[trigger] with_found(found, x)[i]) == x
                || found.contains(with_found(found, x)[i]),
        with_found(found, x).contains(x),
        forall|y: (T, u32, Seq<u32>)| #[trigger]
            found.contains(y) ==> with_found(found, x).contains(y),
    decreases found.len(),
{
    let after = with_found(found, x);
    if found.len() == 0 || found.last().1 >= x.1 {
        assert(after[found.len() as int] == x);
        assert forall|y: (T, u32, Seq<u32>)| #[trigger]
            found.contains(y) implies after.contains(y) by {
            let k = choose|k: int| 0 <= k < found.len() && found[k] == y;
            assert(after[k] == y);
        }
        assert forall|i: int| 0 <= i < after.len() implies (#[trigger] after[i]) == x
            || found.contains(after[i]) by {
            if i < found.len() {
                assert(found[i] == after[i]);
            }
        }
    } else {
        let rest = found.drop_last();
        lemma_with_found_members(rest, x);
        let part = with_found(rest, x);
        let at = choose|k: int| 0 <= k < part.len() && part[k] == x;
        assert(after[at] == x);
        assert forall|y: (T, u32, Seq<u32>)| #[trigger]
            found.contains(y) implies after.contains(y) by {
            let k = choose|k: int| 0 <= k < found.len() && found[k] == y;
            if k < rest.len() {
                assert(rest[k] == y);
                assert(rest.contains(y));
                let m = choose|m: int| 0 <= m < part.len() && part[m] == y;
                assert(after[m] == y);
            } else {
                assert(after[part.len() as int] == y);
            }
        }
        assert forall|i: int| 0 <= i < after.len() implies (#[trigger] after[i]) == x
            || found.contains(after[i]) by {
            if i < part.len() {
                assert(part[i] == after[i]);
                if part[i] != x {
                    let k = choose|k: int| 0 <= k < rest.len() && rest[k] == part[i];
                    assert(found[k] == after[i]);
                }
            } else {
                assert(found[found.len() - 1] == after[i]);
            }
        }
    }
}

/// Ranking puts the best in front, and neither adds nor loses anything.
pub proof fn law_ranking_puts_best_first<T>(found: Seq<(T, u32, Seq<u32>)>, n: int)
    requires
        0 <= n <= found.len(),
    ensures
        best_first(ranked(found, n)),
        ranked(found, n).to_multiset() == found.take(n).to_multiset(),
    decreases n,
{
    broadcast use vstd::seq_lib::group_to_multiset_ensures;

    if n > 0 {
        law_ranking_puts_best_first(found, n - 1);
        lemma_with_found(ranked(found, n - 1), found[n - 1]);
        assert(found.take(n) =~= found.take(n - 1).push(found[n - 1]));
    } else {
        assert(found.take(0) =~= Seq::<(T, u32, Seq<u32>)>::empty());
    }
}

/// What results are, as values.
pub open spec fn results_of<T>(results: Seq<(T, Vec<u32>)>) -> Seq<(T, Seq<u32>)> {
    Seq::new(results.len(), |i: int| (results[i].0, results[i].1@))
}

/// What was found so far, with the best in front.
pub struct Ranking<T> {
    results: Vec<(T, Vec<u32>)>,
    scores: Vec<u32>,
}

impl<T> View for Ranking<T> {
    type V = Seq<(T, u32, Seq<u32>)>;

    closed spec fn view(&self) -> Seq<(T, u32, Seq<u32>)> {
        Seq::new(
            self.results@.len(),
            |i: int| (self.results@[i].0, self.scores@[i], self.results@[i].1@),
        )
    }
}

impl<T> Ranking<T> {
    #[verifier::type_invariant]
    spec fn scores_go_with_results(self) -> bool {
        self.scores@.len() == self.results@.len()
    }

    /// Nothing found yet.
    pub fn new() -> (r: Self)
        ensures
            r@ == Seq::<(T, u32, Seq<u32>)>::empty(),
    {
        let r = Ranking { results: Vec::new(), scores: Vec::new() };
        assert(r@ =~= Seq::<(T, u32, Seq<u32>)>::empty());
        r
    }

    /// Something more was found: it goes behind those that match as well or better, with its
    /// places sorted.
    pub fn put(self, item: T, score: u32, places: &Vec<u32>) -> (r: Self)
        ensures
            r@ == with_found(
                self@,
                (item, score, sorted_places(places@, places@.len() as int)),
            ),
    {
        proof {
            use_type_invariant(&self);
        }
        let sorted = sort_places(places);
        let ghost x = (item, score, sorted@);
        let ghost before = self@;
        let mut results = self.results;
        let mut scores = self.scores;
        let mut k: usize = scores.len();
        assert(before.take(k as int) =~= before);
        assert(with_found(before.take(k as int), x) + before.skip(k as int) =~= with_found(
            before,
            x,
        ));
        while k > 0 && scores[k - 1] < score
            invariant
                k <= scores@.len(),
                before.len() == scores@.len(),
                forall|j: int| 0 <= j < before.len() ==> (#[trigger] before[j]).1 == scores@[j],
                x.1 == score,
                with_found(before.take(k as int), x) + before.skip(k as int) == with_found(
                    before,
                    x,
                ),
            decreases k,
        {
            proof {
                let short = before.take(k as int);
                assert(short.drop_last() =~= before.take(k - 1));
                assert(short.last() == before[k - 1]);
                assert(with_found(before.take(k - 1), x).push(before[k - 1]) + before.skip(k as int)
                    =~= with_found(before.take(k - 1), x) + before.skip(k - 1));
            }
            k -= 1;
        }
        results.insert(k, (item, sorted));
        scores.insert(k, score);
        let r = Ranking { results, scores };
        proof {
            let short = before.take(k as int);
            if k > 0 {
                assert(short.last() == before[k - 1]);
                assert(before[k - 1].1 == self.scores@[k - 1]);
            }
            assert(with_found(short, x) =~= short.push(x));
            assert(r@ =~= short.push(x) + before.skip(k as int));
        }
        r
    }

    /// What was found, with the best in front.
    pub fn finish(self) -> (r: Vec<(T, Vec<u32>)>)
        ensures
            results_of(r@) == without_scores(self@),
    {
        proof {
            use_type_invariant(&self);
        }
        assert(results_of(self.results@) =~= without_scores(self@));
        self.results
    }
}

} // verus!
