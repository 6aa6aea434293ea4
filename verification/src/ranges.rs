//! Ranges of lines, inclusive at both ends, and how far to scroll to show them.

use vstd::prelude::*;

verus! {

/// Whether a line is in one of some ranges.
pub open spec fn covers(ranges: Seq<(usize, usize)>, line: int) -> bool {
    exists|i: int| 0 <= i < ranges.len() && in_range(#[trigger] ranges[i], line)
}

/// Whether a line is in a range.
pub open spec fn in_range(range: (usize, usize), line: int) -> bool {
    range.0 <= line <= range.1
}

/// The ends of every range are in order.
pub open spec fn ordered_ranges(ranges: Seq<(usize, usize)>) -> bool {
    forall|i: int| 0 <= i < ranges.len() ==> (#[trigger] ranges[i]).0 <= ranges[i].1
}

/// The ranges go up, and at least one line is between each and the next.
pub open spec fn separated(ranges: Seq<(usize, usize)>) -> bool {
    forall|i: int, j: int|
        #![trigger ranges[i], ranges[j]]
        0 <= i < j < ranges.len() ==> ranges[i].1 + 1 < ranges[j].0
}

/// The ranges start one after the other.
spec fn starts_sorted(ranges: Seq<(usize, usize)>) -> bool {
    forall|i: int, j: int|
        #![trigger ranges[i], ranges[j]]
        0 <= i < j < ranges.len() ==> ranges[i].0 <= ranges[j].0
}

/// One more range covers its lines too.
proof fn lemma_covers_push(ranges: Seq<(usize, usize)>, range: (usize, usize), line: int)
    ensures
        covers(ranges.push(range), line) <==> covers(ranges, line) || in_range(range, line),
{
    let more = ranges.push(range);
    if covers(ranges, line) {
        let i = choose|i: int| 0 <= i < ranges.len() && in_range(#[trigger] ranges[i], line);
        assert(in_range(more[i], line));
    }
    if in_range(range, line) {
        assert(in_range(more[ranges.len() as int], line));
    }
    if covers(more, line) {
        let i = choose|i: int| 0 <= i < more.len() && in_range(#[trigger] more[i], line);
        if i < ranges.len() {
            assert(in_range(ranges[i], line));
        }
    }
}

/// A range that is put in anywhere covers its lines too.
proof fn lemma_covers_insert(ranges: Seq<(usize, usize)>, k: int, range: (usize, usize), line: int)
    requires
        0 <= k <= ranges.len(),
    ensures
        covers(ranges.insert(k, range), line) <==> covers(ranges, line) || in_range(range, line),
{
    let more = ranges.insert(k, range);
    if covers(ranges, line) {
        let i = choose|i: int| 0 <= i < ranges.len() && in_range(#[trigger] ranges[i], line);
        let j = if i < k {
            i
        } else {
            i + 1
        };
        assert(in_range(more[j], line));
    }
    if in_range(range, line) {
        assert(in_range(more[k], line));
    }
    if covers(more, line) {
        let i = choose|i: int| 0 <= i < more.len() && in_range(#[trigger] more[i], line);
        if i < k {
            assert(in_range(ranges[i], line));
        } else if i > k {
            assert(in_range(ranges[i - 1], line));
        }
    }
}

/// Ranges that are separated and in order are determined by the lines that they cover.
pub proof fn law_separated_ranges_are_determined(a: Seq<(usize, usize)>, b: Seq<(usize, usize)>)
    requires
        separated(a),
        separated(b),
        ordered_ranges(a),
        ordered_ranges(b),
        forall|line: int| covers(a, line) <==> covers(b, line),
    ensures
        a == b,
    decreases a.len() + b.len(),
{
    if a.len() > 0 {
        assert(in_range(a[0], a[0].0 as int));
        assert(covers(a, a[0].0 as int));
    }
    if b.len() > 0 {
        assert(in_range(b[0], b[0].0 as int));
        assert(covers(b, b[0].0 as int));
    }
    if a.len() == 0 || b.len() == 0 {
        if a.len() > 0 {
            assert(covers(b, a[0].0 as int));
        }
        if b.len() > 0 {
            assert(covers(a, b[0].0 as int));
        }
        assert(a =~= b);
    } else {
        lemma_last_range_agrees(a, b);
        lemma_last_range_agrees(b, a);
        let x = a.drop_last();
        let y = b.drop_last();
        assert forall|i: int| 0 <= i < x.len() implies (#[trigger] x[i]).0 <= x[i].1 by {
            assert(x[i] == a[i]);
        }
        assert forall|i: int| 0 <= i < y.len() implies (#[trigger] y[i]).0 <= y[i].1 by {
            assert(y[i] == b[i]);
        }
        assert(separated(x)) by {
            assert forall|i: int, j: int|
                #![trigger x[i], x[j]]
                0 <= i < j < x.len() implies x[i].1 + 1 < x[j].0 by {
                assert(x[i] == a[i] && x[j] == a[j]);
            }
        }
        assert(separated(y)) by {
            assert forall|i: int, j: int|
                #![trigger y[i], y[j]]
                0 <= i < j < y.len() implies y[i].1 + 1 < y[j].0 by {
                assert(y[i] == b[i] && y[j] == b[j]);
            }
        }
        assert forall|line: int| covers(x, line) <==> covers(y, line) by {
            lemma_covers_push(x, a.last(), line);
            lemma_covers_push(y, b.last(), line);
            assert(x.push(a.last()) =~= a);
            assert(y.push(b.last()) =~= b);
            lemma_last_is_apart(a, line);
            lemma_last_is_apart(b, line);
        }
        law_separated_ranges_are_determined(x, y);
        assert(a =~= x.push(a.last()));
        assert(b =~= y.push(b.last()));
    }
}

/// The lines of the last range are in no other.
proof fn lemma_last_is_apart(a: Seq<(usize, usize)>, line: int)
    requires
        a.len() > 0,
        separated(a),
    ensures
        covers(a.drop_last(), line) ==> !in_range(a.last(), line),
{
    let x = a.drop_last();
    if covers(x, line) {
        let i = choose|i: int| 0 <= i < x.len() && in_range(#[trigger] x[i], line);
        assert(x[i] == a[i]);
        assert(a[i].1 + 1 < a[a.len() - 1].0);
    }
}

/// The last range of one list is no longer than that of another that covers the same lines.
proof fn lemma_last_range_agrees(a: Seq<(usize, usize)>, b: Seq<(usize, usize)>)
    requires
        a.len() > 0,
        b.len() > 0,
        separated(a),
        separated(b),
        ordered_ranges(a),
        ordered_ranges(b),
        forall|line: int| covers(a, line) <==> covers(b, line),
    ensures
        a.last().1 <= b.last().1,
        a.last().1 == b.last().1 ==> b.last().0 <= a.last().0,
{
    let n = a.len() - 1;
    let m = b.len() - 1;
    assert(in_range(a[n], a[n].1 as int));
    assert(covers(a, a[n].1 as int));
    assert(covers(b, a[n].1 as int));
    let i = choose|i: int| 0 <= i < b.len() && in_range(#[trigger] b[i], a[n].1 as int);
    if i < m {
        assert(b[i].1 + 1 < b[m].0);
        assert(b[m].0 <= b[m].1);
    }
    if a[n].1 == b[m].1 && a[n].0 < b[m].0 {
        // The line in front of the last range of `b` is covered by `a`, but not by `b`.
        let line = b[m].0 - 1;
        assert(in_range(a[n], line));
        assert(covers(a, line));
        assert(covers(b, line));
        let k = choose|k: int| 0 <= k < b.len() && in_range(#[trigger] b[k], line);
        if k < m {
            assert(b[k].1 + 1 < b[m].0);
        }
    }
}

/// Separated ranges, in order, that cover what some ranges cover and `lo..=hi`.
pub open spec fn is_union(
    r: Seq<(usize, usize)>,
    ranges: Seq<(usize, usize)>,
    lo: usize,
    hi: usize,
) -> bool {
    &&& separated(r)
    &&& ordered_ranges(r)
    &&& forall|line: int| #[trigger]
        covers(r, line) <==> covers(ranges, line) || lo <= line <= hi
}

/// Where a range goes among the first `n` of others: behind those that start no later.
pub open spec fn start_place(ranges: Seq<(usize, usize)>, start: usize, n: int) -> int
    decreases n,
{
    if n > 0 && ranges[n - 1].0 > start {
        start_place(ranges, start, n - 1)
    } else {
        n
    }
}

/// The first `n` ranges, in the order of their starts, those with the same start as they were.
pub open spec fn by_start(ranges: Seq<(usize, usize)>, n: int) -> Seq<(usize, usize)>
    decreases n,
{
    if n <= 0 {
        Seq::empty()
    } else {
        let before = by_start(ranges, n - 1);
        let range = ranges[n - 1];
        before.insert(start_place(before, range.0, before.len() as int), range)
    }
}

/// The first `n` ranges, each joined to the one before where they overlap or touch.
pub open spec fn merged(ranges: Seq<(usize, usize)>, n: int) -> Seq<(usize, usize)>
    decreases n,
{
    if n <= 0 {
        Seq::empty()
    } else {
        let before = merged(ranges, n - 1);
        let (start, end) = ranges[n - 1];
        if before.len() > 0 && start <= before.last().1 + 1 {
            let last = before.last();
            before.drop_last().push((last.0, if last.1 >= end { last.1 } else { end }))
        } else {
            before.push((start, end))
        }
    }
}

/// Some ranges and `lo..=hi`, with overlapping or adjacent ranges combined.
pub open spec fn united(ranges: Seq<(usize, usize)>, lo: usize, hi: usize) -> Seq<(usize, usize)> {
    let sorted = by_start(ranges.push((lo, hi)), ranges.len() as int + 1);
    merged(sorted, sorted.len() as int)
}

/// The place for a range is in the list, and parts what starts no later from what starts later.
proof fn lemma_start_place(ranges: Seq<(usize, usize)>, start: usize, n: int)
    requires
        0 <= n <= ranges.len(),
    ensures
        0 <= start_place(ranges, start, n) <= n,
        start_place(ranges, start, n) > 0 ==> ranges[start_place(ranges, start, n) - 1].0 <= start,
        forall|j: int|
            start_place(ranges, start, n) <= j < n ==> (#[trigger] ranges[j]).0 > start,
    decreases n,
{
    if n > 0 && ranges[n - 1].0 > start {
        lemma_start_place(ranges, start, n - 1);
    }
}

/// Ordering ranges by their starts neither adds nor loses lines.
proof fn lemma_by_start(ranges: Seq<(usize, usize)>, n: int)
    requires
        0 <= n <= ranges.len(),
    ensures
        by_start(ranges, n).len() == n,
        starts_sorted(by_start(ranges, n)),
        forall|line: int| #[trigger]
            covers(by_start(ranges, n), line) <==> covers(ranges.take(n), line),
        ordered_ranges(ranges) ==> ordered_ranges(by_start(ranges, n)),
    decreases n,
{
    if n > 0 {
        lemma_by_start(ranges, n - 1);
        let before = by_start(ranges, n - 1);
        let after = by_start(ranges, n);
        let range = ranges[n - 1];
        let k = start_place(before, range.0, before.len() as int);
        lemma_start_place(before, range.0, before.len() as int);
        assert forall|a: int, b: int|
            #![trigger after[a], after[b]]
            0 <= a < b < after.len() implies after[a].0 <= after[b].0 by {
            let a2 = if a < k {
                a
            } else {
                a - 1
            };
            let b2 = if b < k {
                b
            } else {
                b - 1
            };
            if a != k {
                assert(after[a] == before[a2]);
            }
            if b != k {
                assert(after[b] == before[b2]);
            }
            if b == k && a2 < k - 1 {
                assert(before[a2].0 <= before[k - 1].0);
            }
        }
        if ordered_ranges(ranges) {
            assert forall|a: int| 0 <= a < after.len() implies (#[trigger] after[a]).0
                <= after[a].1 by {
                if a < k {
                    assert(after[a] == before[a]);
                } else if a > k {
                    assert(after[a] == before[a - 1]);
                } else {
                    assert(after[a] == ranges[n - 1]);
                }
            }
        }
        assert forall|line: int| #[trigger] covers(after, line) <==> covers(
            ranges.take(n),
            line,
        ) by {
            lemma_covers_insert(before, k, range, line);
            lemma_covers_push(ranges.take(n - 1), range, line);
            assert(ranges.take(n - 1).push(range) =~= ranges.take(n));
            assert(covers(before, line) <==> covers(ranges.take(n - 1), line));
        }
    } else {
        assert(by_start(ranges, n) =~= ranges.take(0));
    }
}

/// Joining ranges that overlap or touch neither adds nor loses lines.
proof fn lemma_merged(ranges: Seq<(usize, usize)>, n: int)
    requires
        0 <= n <= ranges.len(),
        starts_sorted(ranges),
        ordered_ranges(ranges),
    ensures
        separated(merged(ranges, n)),
        ordered_ranges(merged(ranges, n)),
        n > 0 ==> merged(ranges, n).len() > 0 && merged(ranges, n).last().0 <= ranges[n - 1].0,
        forall|line: int| #[trigger]
            covers(merged(ranges, n), line) <==> covers(ranges.take(n), line),
    decreases n,
{
    if n > 0 {
        lemma_merged(ranges, n - 1);
        let before = merged(ranges, n - 1);
        let after = merged(ranges, n);
        let (start, end) = ranges[n - 1];
        assert(ranges[n - 1].0 <= ranges[n - 1].1);
        if n > 1 {
            assert(ranges[n - 2].0 <= ranges[n - 1].0);
        }
        let joins = before.len() > 0 && start <= before.last().1 + 1;
        let head = before.drop_last();
        let last = before.last();
        if before.len() > 0 {
            assert(before[before.len() - 1].0 <= before[before.len() - 1].1);
        }
        assert forall|a: int, b: int|
            #![trigger after[a], after[b]]
            0 <= a < b < after.len() implies after[a].1 + 1 < after[b].0 by {
            if joins {
                assert(before[a].1 + 1 < before[b].0);
            } else if b < before.len() {
                assert(before[a].1 + 1 < before[b].0);
            } else if a < before.len() - 1 {
                assert(before[a].1 + 1 < before[before.len() - 1].0);
            }
        }
        assert forall|a: int| 0 <= a < after.len() implies (#[trigger] after[a]).0
            <= after[a].1 by {
            if a < after.len() - 1 {
                assert(after[a] == before[a]);
            }
        }
        assert forall|line: int| #[trigger] covers(after, line) <==> covers(
            ranges.take(n),
            line,
        ) by {
            lemma_covers_push(ranges.take(n - 1), (start, end), line);
            assert(ranges.take(n - 1).push((start, end)) =~= ranges.take(n));
            assert(covers(before, line) <==> covers(ranges.take(n - 1), line));
            if joins {
                lemma_covers_push(head, last, line);
                lemma_covers_push(head, after.last(), line);
                assert(head.push(last) =~= before);
                assert(head.push(after.last()) =~= after);
                assert(in_range(after.last(), line) <==> in_range(last, line) || in_range(
                    (start, end),
                    line,
                ));
            } else {
                lemma_covers_push(before, (start, end), line);
            }
        }
    } else {
        assert(merged(ranges, n) =~= ranges.take(0));
    }
}

/// Merging a range with others whose ends are in order gives separated ranges, in order, that cover
/// the lines of all of them and no others.
pub proof fn law_union_covers_both(ranges: Seq<(usize, usize)>, lo: usize, hi: usize)
    requires
        lo <= hi,
        ordered_ranges(ranges),
    ensures
        is_union(united(ranges, lo, hi), ranges, lo, hi),
{
    let all = ranges.push((lo, hi));
    let n = all.len() as int;
    let sorted = by_start(all, n);
    assert forall|i: int| 0 <= i < all.len() implies (#[trigger] all[i]).0 <= all[i].1 by {
        if i < ranges.len() {
            assert(all[i] == ranges[i]);
        }
    }
    lemma_by_start(all, n);
    lemma_merged(sorted, n);
    let r = united(ranges, lo, hi);
    assert(all.take(n) =~= all);
    assert(sorted.take(n) =~= sorted);
    assert forall|line: int| #[trigger] covers(r, line) <==> covers(ranges, line) || lo <= line
        <= hi by {
        lemma_covers_push(ranges, (lo, hi), line);
        assert(covers(sorted, line) <==> covers(all, line));
        assert(covers(r, line) <==> covers(sorted, line));
    }
}

/// Puts a range among others, behind those that start no later.
fn put_by_start(sorted: &mut Vec<(usize, usize)>, range: (usize, usize))
    ensures
        final(sorted)@ == old(sorted)@.insert(
            start_place(old(sorted)@, range.0, old(sorted)@.len() as int),
            range,
        ),
{
    let ghost before = sorted@;
    let mut k: usize = sorted.len();
    while k > 0 && sorted[k - 1].0 > range.0
        invariant
            k <= sorted@.len(),
            sorted@ == before,
            start_place(before, range.0, before.len() as int) == start_place(
                before,
                range.0,
                k as int,
            ),
        decreases k,
    {
        k -= 1;
    }
    sorted.insert(k, range);
}

/// Merge `lo..=hi` with `snapshot`, combining overlapping or adjacent ranges. A range that runs
/// backward covers no line, and is kept unless it overlaps or touches one before it.
pub fn union_ranges(snapshot: &Vec<(usize, usize)>, lo: usize, hi: usize) -> (r: Vec<(usize, usize)>)
    requires
        lo <= hi,
    ensures
        r@ == united(snapshot@, lo, hi),
        ordered_ranges(snapshot@) ==> is_union(r@, snapshot@, lo, hi),
{
    let ghost all = snapshot@.push((lo, hi));
    let mut sorted: Vec<(usize, usize)> = Vec::new();
    let mut i: usize = 0;
    assert(sorted@ =~= by_start(all, 0));
    while i < snapshot.len()
        invariant
            i <= snapshot@.len(),
            all == snapshot@.push((lo, hi)),
            sorted@ == by_start(all, i as int),
        decreases snapshot@.len() - i,
    {
        assert(all[i as int] == snapshot@[i as int]);
        put_by_start(&mut sorted, snapshot[i]);
        i += 1;
    }
    put_by_start(&mut sorted, (lo, hi));
    assert(sorted@ == by_start(all, snapshot@.len() as int + 1));
    let mut joined: Vec<(usize, usize)> = Vec::new();
    let mut i: usize = 0;
    assert(joined@ =~= merged(sorted@, 0));
    while i < sorted.len()
        invariant
            i <= sorted@.len(),
            joined@ == merged(sorted@, i as int),
        decreases sorted@.len() - i,
    {
        let (start, end) = sorted[i];
        let ghost before = joined@;
        let n: usize = joined.len();
        if n > 0 && start <= joined[n - 1].1.saturating_add(1) {
            let (first, last) = joined[n - 1];
            joined[n - 1] = (first, if last >= end { last } else { end });
            assert(joined@ =~= before.drop_last().push(joined@.last()));
        } else {
            joined.push((start, end));
        }
        i += 1;
    }
    proof {
        if ordered_ranges(snapshot@) {
            law_union_covers_both(snapshot@, lo, hi);
        }
    }
    joined
}

/// What is left of a range without the lines `lo..=hi`: what lies below them, and what lies above.
/// A range that runs backward has no lines to remove, and is left where it does not lie within them.
pub open spec fn cut_range(range: (usize, usize), lo: usize, hi: usize) -> Seq<(usize, usize)> {
    if range.1 < lo || range.0 > hi {
        seq![range]
    } else {
        (if range.0 < lo {
            seq![(range.0, (lo - 1) as usize)]
        } else {
            Seq::empty()
        }) + (if range.1 > hi {
            seq![((hi + 1) as usize, range.1)]
        } else {
            Seq::empty()
        })
    }
}

/// What is left of the first `n` ranges.
pub open spec fn cut_ranges(
    ranges: Seq<(usize, usize)>,
    lo: usize,
    hi: usize,
    n: int,
) -> Seq<(usize, usize)>
    decreases n,
{
    if n <= 0 {
        Seq::empty()
    } else {
        cut_ranges(ranges, lo, hi, n - 1) + cut_range(ranges[n - 1], lo, hi)
    }
}

/// Remove `lo..=hi` from `snapshot`, splitting partially overlapped ranges.
pub fn subtract_ranges(snapshot: &Vec<(usize, usize)>, lo: usize, hi: usize) -> (r: Vec<
    (usize, usize),
>)
    requires
        lo <= hi,
    ensures
        r@ == cut_ranges(snapshot@, lo, hi, snapshot@.len() as int),
{
    let mut result: Vec<(usize, usize)> = Vec::new();
    let mut i: usize = 0;
    while i < snapshot.len()
        invariant
            i <= snapshot@.len(),
            lo <= hi,
            result@ == cut_ranges(snapshot@, lo, hi, i as int),
        decreases snapshot@.len() - i,
    {
        let (a, b) = snapshot[i];
        let ghost before = result@;
        if b < lo || a > hi {
            result.push((a, b));
        } else {
            if a < lo {
                result.push((a, lo - 1));
            }
            if b > hi {
                result.push((hi + 1, b));
            }
        }
        assert(result@ =~= before + cut_range((a, b), lo, hi));
        i += 1;
    }
    result
}

/// What is left covers what was covered, without the lines that were removed.
pub proof fn law_subtraction_removes_lines(
    ranges: Seq<(usize, usize)>,
    lo: usize,
    hi: usize,
    n: int,
    line: int,
)
    requires
        lo <= hi,
        0 <= n <= ranges.len(),
    ensures
        covers(cut_ranges(ranges, lo, hi, n), line) <==> covers(ranges.take(n), line) && !(lo
            <= line <= hi),
    decreases n,
{
    if n > 0 {
        law_subtraction_removes_lines(ranges, lo, hi, n - 1, line);
        let before = cut_ranges(ranges, lo, hi, n - 1);
        let range = ranges[n - 1];
        let cut = cut_range(range, lo, hi);
        lemma_covers_push(ranges.take(n - 1), range, line);
        assert(ranges.take(n - 1).push(range) =~= ranges.take(n));
        if cut.len() == 0 {
            assert(before + cut =~= before);
        } else if cut.len() == 1 {
            lemma_covers_push(before, cut[0], line);
            assert(before + cut =~= before.push(cut[0]));
        } else {
            lemma_covers_push(before, cut[0], line);
            lemma_covers_push(before.push(cut[0]), cut[1], line);
            assert(before + cut =~= before.push(cut[0]).push(cut[1]));
        }
    } else {
        assert(ranges.take(0) =~= Seq::<(usize, usize)>::empty());
    }
}

/// How many lines there are from `start` to `end`. A range that runs backward has none, and is shown
/// as if it had its first.
pub open spec fn lines_from(start: int, end: int) -> int {
    if start <= end {
        end - start + 1
    } else {
        1
    }
}

/// How far to scroll to show `height` lines from `start` on, counted from 1, on a page: in the
/// middle of the page, or, where they do not fit, a fifth of a page below its top.
pub open spec fn scroll_to_lines(start: int, height: int, page: int) -> int {
    let above = if height <= page {
        (page - height) / 2
    } else {
        page * 20 / 100
    };
    if start - 1 > above {
        start - 1 - above
    } else {
        0
    }
}

/// How far to scroll to show the lines from `start` to `end`, counted from 1.
pub open spec fn block_scroll(start: int, end: int, page: int) -> int {
    scroll_to_lines(start, lines_from(start, end), page)
}

/// How far to scroll to show a block of lines.
pub fn compute_single_block_scroll(start_1_indexed: usize, block_height: usize, page_size: usize) -> (r:
    usize)
    ensures
        r == scroll_to_lines(start_1_indexed as int, block_height as int, page_size as int),
{
    let above: usize = if block_height <= page_size {
        (page_size - block_height) / 2
    } else {
        page_size / 5
    };
    assert(page_size * 20 / 100 == page_size / 5);
    start_1_indexed.saturating_sub(1).saturating_sub(above)
}

/// How far to scroll to show the lines from `start` to `end`, counted from 1.
pub fn scroll_for_block(start: usize, end: usize, page_size: usize) -> (r: usize)
    ensures
        r == block_scroll(start as int, end as int, page_size as int),
{
    if start > end {
        compute_single_block_scroll(start, 1, page_size)
    } else if end - start < page_size {
        compute_single_block_scroll(start, end - start + 1, page_size)
    } else {
        assert(page_size * 20 / 100 == page_size / 5);
        start.saturating_sub(1).saturating_sub(page_size / 5)
    }
}

/// The smallest start of the first `n` ranges.
pub open spec fn first_line(ranges: Seq<(usize, usize)>, n: int) -> int
    decreases n,
{
    if n <= 1 {
        ranges[0].0 as int
    } else if first_line(ranges, n - 1) <= ranges[n - 1].0 {
        first_line(ranges, n - 1)
    } else {
        ranges[n - 1].0 as int
    }
}

/// The largest end of the first `n` ranges.
pub open spec fn last_line(ranges: Seq<(usize, usize)>, n: int) -> int
    decreases n,
{
    if n <= 1 {
        ranges[0].1 as int
    } else if last_line(ranges, n - 1) >= ranges[n - 1].1 {
        last_line(ranges, n - 1)
    } else {
        ranges[n - 1].1 as int
    }
}

/// How far to scroll to show some ranges: all of them where they fit on a page, else the first.
pub open spec fn ranges_scroll(ranges: Seq<(usize, usize)>, page: int) -> int {
    let n = ranges.len() as int;
    if n == 0 || page == 0 {
        0
    } else if n > 1 && lines_from(first_line(ranges, n), last_line(ranges, n)) <= page {
        block_scroll(first_line(ranges, n), last_line(ranges, n), page)
    } else {
        block_scroll(ranges[0].0 as int, ranges[0].1 as int, page)
    }
}

/// How far to scroll to show some ranges.
pub fn compute_scroll_target(ranges: &Vec<(usize, usize)>, page_size: usize) -> (r: usize)
    ensures
        r == ranges_scroll(ranges@, page_size as int),
{
    if ranges.len() == 0 || page_size == 0 {
        return 0;
    }
    let mut first: usize = ranges[0].0;
    let mut last: usize = ranges[0].1;
    let mut i: usize = 1;
    while i < ranges.len()
        invariant
            1 <= i <= ranges@.len(),
            first == first_line(ranges@, i as int),
            last == last_line(ranges@, i as int),
        decreases ranges@.len() - i,
    {
        if ranges[i].0 < first {
            first = ranges[i].0;
        }
        if ranges[i].1 > last {
            last = ranges[i].1;
        }
        i += 1;
    }
    if ranges.len() > 1 && (first > last || last - first < page_size) {
        scroll_for_block(first, last, page_size)
    } else {
        let (start, end) = ranges[0];
        scroll_for_block(start, end, page_size)
    }
}

/// A block that fits on a page is wholly visible, unless it starts before the first line.
pub proof fn law_block_that_fits_is_visible(start: int, end: int, page: int)
    requires
        1 <= start <= end,
        end - start + 1 <= page,
    ensures
        block_scroll(start, end, page) < start,
        end <= block_scroll(start, end, page) + page,
{
}

} // verus!
