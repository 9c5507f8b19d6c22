use vstd::prelude::*;

use crate::classify::{analyze_in_order, in_order};
use crate::entry::SimpleWord;
use crate::order::OrderingVariant;

verus! {

/// How many entries a ranking shows.
pub const TOP_N: usize = 10;

/// The number of characters of the word at position `p`.
pub open spec fn text_len(words: Seq<SimpleWord>, p: usize) -> nat {
    words[p as int].word@.len()
}

/// The positions `0, 1, ..., n - 1`.
pub open spec fn positions(n: nat) -> Seq<usize> {
    Seq::new(n, |i: int| i as usize)
}

/// Every element of `ps` is a position into `words`.
pub open spec fn valid_positions(words: Seq<SimpleWord>, ps: Seq<usize>) -> bool {
    forall|k: int| 0 <= k < ps.len() ==> #[trigger] ps[k] < words.len()
}

/// The positions of the entries whose word matches `v`, in corpus order.
pub open spec fn matching(words: Seq<SimpleWord>, v: OrderingVariant) -> Seq<usize> {
    positions(words.len()).filter(|p: usize| in_order(words[p as int].word@, v))
}

/// The elements of `ps` whose word has exactly `l` characters, in their order.
pub open spec fn of_length(words: Seq<SimpleWord>, ps: Seq<usize>, l: nat) -> Seq<usize> {
    ps.filter(|p: usize| text_len(words, p) == l)
}

/// The groups of `ps` by word length for the lengths `top`, `top - 1`, ...,
/// `top - count + 1`, longest first; each group keeps the order of `ps`.
pub open spec fn longest_first(words: Seq<SimpleWord>, ps: Seq<usize>, top: nat, count: nat) -> Seq<
    usize,
>
    decreases count,
{
    if count == 0 {
        Seq::empty()
    } else {
        longest_first(words, ps, top, (count - 1) as nat) + of_length(
            words,
            ps,
            (top - (count - 1)) as nat,
        )
    }
}

/// The greatest word length among the elements of `ps` (zero for none).
pub open spec fn max_len(words: Seq<SimpleWord>, ps: Seq<usize>) -> nat
    decreases ps.len(),
{
    if ps.len() == 0 {
        0
    } else {
        let m = max_len(words, ps.drop_last());
        let l = text_len(words, ps.last());
        if l > m {
            l
        } else {
            m
        }
    }
}

/// `ps` sorted by descending word length, stably: all entries of one length
/// come before all shorter ones, and keep among themselves the order of `ps`.
pub open spec fn by_length_desc(words: Seq<SimpleWord>, ps: Seq<usize>) -> Seq<usize> {
    longest_first(words, ps, max_len(words, ps), max_len(words, ps) + 1)
}

/// `ps` without each element whose word equals the word of the element just
/// before it in `ps`.
pub open spec fn dedup_adjacent(words: Seq<SimpleWord>, ps: Seq<usize>) -> Seq<usize>
    decreases ps.len(),
{
    if ps.len() <= 1 {
        ps
    } else {
        let prev = dedup_adjacent(words, ps.drop_last());
        if words[ps.last() as int].word@ == words[ps[ps.len() - 2] as int].word@ {
            prev
        } else {
            prev.push(ps.last())
        }
    }
}

/// The full ranking for `v`: the matching entries, longest first, with
/// adjacent duplicates removed.
pub open spec fn ranked(words: Seq<SimpleWord>, v: OrderingVariant) -> Seq<usize> {
    dedup_adjacent(words, by_length_desc(words, matching(words, v)))
}

/// The head of a ranking that is shown: its first `TOP_N` elements, or all
/// of them when there are fewer.
pub open spec fn top_of(ps: Seq<usize>) -> Seq<usize> {
    if ps.len() <= TOP_N {
        ps
    } else {
        ps.take(TOP_N as int)
    }
}

/// Positions, in corpus order, of the entries whose word matches `comparison`.
pub fn matching_positions(words: &Vec<SimpleWord>, comparison: OrderingVariant) -> (r: Vec<usize>)
    ensures
        r@ == matching(words@, comparison),
        valid_positions(words@, r@),
{
    let ghost pred = |p: usize| in_order(words@[p as int].word@, comparison);
    let n: usize = words.len();
    let mut found: Vec<usize> = Vec::new();
    for i in 0..n
        invariant
            n == words@.len(),
            pred == (|p: usize| in_order(words@[p as int].word@, comparison)),
            found@ == positions(i as nat).filter(pred),
            forall|k: int| 0 <= k < found@.len() ==> #[trigger] found@[k] < i,
    {
        proof {
            reveal(Seq::filter);
            assert(positions((i + 1) as nat).drop_last() =~= positions(i as nat));
        }
        if analyze_in_order(words[i].word.as_str(), comparison) {
            found.push(i);
        }
    }
    found
}

/// Sorts the positions `ps` by descending length of their words, stably.
pub fn sort_by_length(words: &Vec<SimpleWord>, ps: &Vec<usize>) -> (r: Vec<usize>)
    requires
        valid_positions(words@, ps@),
    ensures
        r@ == by_length_desc(words@, ps@),
        valid_positions(words@, r@),
{
    let n: usize = ps.len();
    let mut lens: Vec<usize> = Vec::new();
    let mut top: usize = 0;
    for k in 0..n
        invariant
            n == ps@.len(),
            valid_positions(words@, ps@),
            lens@.len() == k,
            forall|j: int| 0 <= j < k ==> #[trigger] lens@[j] == text_len(words@, ps@[j]),
            top == max_len(words@, ps@.take(k as int)),
    {
        proof {
            assert(ps@.take(k + 1).drop_last() =~= ps@.take(k as int));
        }
        let l: usize = words[ps[k]].word.unicode_len();
        lens.push(l);
        if l > top {
            top = l;
        }
    }
    proof {
        assert(ps@.take(n as int) =~= ps@);
    }
    let mut out: Vec<usize> = Vec::new();
    let mut l: usize = top;
    loop
        invariant_except_break
            out@ == longest_first(words@, ps@, top as nat, (top - l) as nat),
        invariant
            n == ps@.len(),
            lens@.len() == n,
            forall|j: int| 0 <= j < n ==> #[trigger] lens@[j] == text_len(words@, ps@[j]),
            top == max_len(words@, ps@),
            l <= top,
            valid_positions(words@, ps@),
            valid_positions(words@, out@),
        ensures
            valid_positions(words@, out@),
            out@ == longest_first(words@, ps@, top as nat, (top + 1) as nat),
        decreases l,
    {
        let ghost base = out@;
        let ghost pred = |p: usize| text_len(words@, p) == l;
        for k in 0..n
            invariant
                n == ps@.len(),
                lens@.len() == n,
                forall|j: int| 0 <= j < n ==> #[trigger] lens@[j] == text_len(words@, ps@[j]),
                pred == (|p: usize| text_len(words@, p) == l),
                valid_positions(words@, ps@),
                valid_positions(words@, out@),
                out@ == base + ps@.take(k as int).filter(pred),
        {
            proof {
                reveal(Seq::filter);
                assert(ps@.take(k + 1).drop_last() =~= ps@.take(k as int));
            }
            if lens[k] == l {
                out.push(ps[k]);
                proof {
                    assert(base + ps@.take(k + 1).filter(pred) =~= (base + ps@.take(
                        k as int,
                    ).filter(pred)).push(ps@[k as int]));
                }
            }
        }
        proof {
            assert(ps@.take(n as int) =~= ps@);
            assert(out@ == longest_first(words@, ps@, top as nat, (top - l + 1) as nat));
        }
        if l == 0 {
            break;
        }
        l = l - 1;
    }
    out
}

/// Removes each position whose word equals the word of the position just
/// before it (adjacent duplicates only).
pub fn dedup_adjacent_positions(words: &Vec<SimpleWord>, ps: &Vec<usize>) -> (r: Vec<usize>)
    requires
        valid_positions(words@, ps@),
    ensures
        r@ == dedup_adjacent(words@, ps@),
{
    let n: usize = ps.len();
    let mut out: Vec<usize> = Vec::new();
    for k in 0..n
        invariant
            n == ps@.len(),
            valid_positions(words@, ps@),
            out@ == dedup_adjacent(words@, ps@.take(k as int)),
    {
        proof {
            assert(ps@.take(k + 1).drop_last() =~= ps@.take(k as int));
        }
        if k == 0 {
            out.push(ps[k]);
            proof {
                assert(ps@.take(1) =~= seq![ps@[0]]);
            }
        } else if !(words[ps[k]] == words[ps[k - 1]]) {
            out.push(ps[k]);
        }
    }
    proof {
        assert(ps@.take(n as int) =~= ps@);
    }
    out
}

/// Ranks the corpus for `comparison`: the positions of the matching entries,
/// longest word first (ties in corpus order), without adjacent duplicates.
pub fn rank(words: &Vec<SimpleWord>, comparison: OrderingVariant) -> (r: Vec<usize>)
    ensures
        r@ == ranked(words@, comparison),
{
    let found = matching_positions(words, comparison);
    let sorted = sort_by_length(words, &found);
    dedup_adjacent_positions(words, &sorted)
}

/// Keeps the first `TOP_N` positions of a ranking.
pub fn top_ten(ranking: Vec<usize>) -> (r: Vec<usize>)
    ensures
        r@ == top_of(ranking@),
{
    let mut r = ranking;
    r.truncate(TOP_N);
    r
}

/// Word lengths never grow along `s`.
pub open spec fn longest_first_sorted(words: Seq<SimpleWord>, s: Seq<usize>) -> bool {
    forall|i: int, j: int|
        0 <= i < j < s.len() ==> text_len(words, #[trigger] s[i]) >= text_len(words, #[trigger] s[j])
}

/// No two neighbours of `s` hold the same word.
pub open spec fn no_adjacent_duplicates(words: Seq<SimpleWord>, s: Seq<usize>) -> bool {
    forall|k: int|
        0 <= k < s.len() - 1 ==> words[s[k] as int].word@ != words[#[trigger] s[k + 1] as int].word@
}

proof fn lemma_longest_first(words: Seq<SimpleWord>, ps: Seq<usize>, top: nat, count: nat)
    requires
        count <= top + 1,
    ensures
        forall|k: int|
            0 <= k < longest_first(words, ps, top, count).len() ==> {
                &&& ps.contains(#[trigger] longest_first(words, ps, top, count)[k])
                &&& top - count < text_len(words, longest_first(words, ps, top, count)[k])
            },
        longest_first_sorted(words, longest_first(words, ps, top, count)),
    decreases count,
{
    if count > 0 {
        let c1 = (count - 1) as nat;
        lemma_longest_first(words, ps, top, c1);
        let prev = longest_first(words, ps, top, c1);
        let l = (top - c1) as nat;
        let pred = |p: usize| text_len(words, p) == l;
        let f = ps.filter(pred);
        let r = prev + f;
        assert(r == longest_first(words, ps, top, count));
        assert forall|k: int| 0 <= k < f.len() implies ps.contains(#[trigger] f[k]) && text_len(
            words,
            f[k],
        ) == l by {
            ps.lemma_filter_pred(pred, k);
            assert(f.contains(f[k]));
            ps.lemma_filter_contains_rev(pred, f[k]);
        }
        assert forall|k: int| 0 <= k < r.len() implies ps.contains(#[trigger] r[k]) && top - count
            < text_len(words, r[k]) by {
            if k >= prev.len() {
                assert(r[k] == f[k - prev.len()]);
            }
        }
        assert forall|i: int, j: int| 0 <= i < j < r.len() implies text_len(words, #[trigger] r[i])
            >= text_len(words, #[trigger] r[j]) by {
            if j >= prev.len() {
                assert(r[j] == f[j - prev.len()]);
                if i >= prev.len() {
                    assert(r[i] == f[i - prev.len()]);
                } else {
                    assert(r[i] == prev[i]);
                }
            }
        }
    }
}

proof fn lemma_dedup(words: Seq<SimpleWord>, ps: Seq<usize>)
    ensures
        forall|k: int|
            0 <= k < dedup_adjacent(words, ps).len() ==> ps.contains(
                #[trigger] dedup_adjacent(words, ps)[k],
            ),
        longest_first_sorted(words, ps) ==> longest_first_sorted(words, dedup_adjacent(words, ps)),
        no_adjacent_duplicates(words, dedup_adjacent(words, ps)),
        ps.len() > 0 ==> dedup_adjacent(words, ps).len() > 0 && words[dedup_adjacent(
            words,
            ps,
        ).last() as int].word@ == words[ps.last() as int].word@,
    decreases ps.len(),
{
    let d = dedup_adjacent(words, ps);
    if ps.len() == 1 {
        assert(d == ps);
        assert(ps.contains(ps[0]));
    } else if ps.len() > 1 {
        let q = ps.drop_last();
        lemma_dedup(words, q);
        let prev = dedup_adjacent(words, q);
        assert forall|k: int| 0 <= k < prev.len() implies ps.contains(#[trigger] prev[k]) by {
            let j = choose|j: int| 0 <= j < q.len() && q[j] == prev[k];
            assert(ps[j] == prev[k]);
        }
        assert(ps.contains(ps.last())) by {
            assert(ps[ps.len() - 1] == ps.last());
        }
        if longest_first_sorted(words, ps) {
            assert forall|k: int| 0 <= k < prev.len() implies text_len(words, #[trigger] prev[k])
                >= text_len(words, ps.last()) by {
                let j = choose|j: int| 0 <= j < q.len() && q[j] == prev[k];
                assert(ps[j] == prev[k]);
                assert(text_len(words, ps[j]) >= text_len(words, ps[ps.len() - 1]));
            }
            assert(q =~= ps.drop_last());
            assert forall|i: int, j: int| 0 <= i < j < q.len() implies text_len(
                words,
                #[trigger] q[i],
            ) >= text_len(words, #[trigger] q[j]) by {
                assert(q[i] == ps[i] && q[j] == ps[j]);
            }
        }
        assert(words[q.last() as int].word@ == words[ps[ps.len() - 2] as int].word@);
    }
}

/// What the ranking for `v` is made of: positions of entries whose words
/// match `v`, never a shorter word before a longer one, and never the same
/// word twice in a row.
pub proof fn lemma_ranking_shape(words: Seq<SimpleWord>, v: OrderingVariant)
    ensures
        forall|k: int|
            0 <= k < ranked(words, v).len() ==> {
                &&& #[trigger] ranked(words, v)[k] < words.len()
                &&& in_order(words[ranked(words, v)[k] as int].word@, v)
            },
        longest_first_sorted(words, ranked(words, v)),
        no_adjacent_duplicates(words, ranked(words, v)),
{
    let m = matching(words, v);
    let top = max_len(words, m);
    let sorted = by_length_desc(words, m);
    let pred = |p: usize| in_order(words[p as int].word@, v);
    let all = positions(words.len());
    lemma_longest_first(words, m, top, top + 1);
    lemma_dedup(words, sorted);
    let r = ranked(words, v);
    assert forall|k: int| 0 <= k < r.len() implies #[trigger] r[k] < words.len() && in_order(
        words[r[k] as int].word@,
        v,
    ) by {
        assert(sorted.contains(r[k]));
        let j = choose|j: int| 0 <= j < sorted.len() && sorted[j] == r[k];
        assert(m.contains(sorted[j]));
        let i = choose|i: int| 0 <= i < m.len() && m[i] == r[k];
        all.lemma_filter_pred(pred, i);
        all.lemma_filter_contains_rev(pred, r[k]);
    }
}

} // verus!
