use vstd::prelude::*;
use vstd::seq_lib::seq_to_set_is_finite;
use vstd::set_lib::{lemma_int_range, lemma_len_subset, set_int_range};

verus! {

/// Whether place `i` comes before place `j` in the ranking: the higher count first, and of
/// two equal counts the one that stands earlier.
pub open spec fn ranks_before(counts: Seq<nat>, i: int, j: int) -> bool {
    counts[i] > counts[j] || (counts[i] == counts[j] && i < j)
}

/// Whether `picks` lists the first `limit` places of the ranking, best first; all places
/// where there are fewer.
pub open spec fn is_top_selection(counts: Seq<nat>, limit: nat, picks: Seq<int>) -> bool {
    &&& picks.len() == if counts.len() < limit {
        counts.len()
    } else {
        limit
    }
    &&& forall|p: int| 0 <= p < picks.len() ==> 0 <= #[trigger] picks[p] < counts.len()
    &&& forall|p: int, q: int|
        0 <= p < q < picks.len() ==> ranks_before(counts, #[trigger] picks[p], #[trigger] picks[q])
    &&& forall|p: int, i: int|
        0 <= p < picks.len() && 0 <= i < counts.len() && !picks.contains(i)
            ==> #[trigger] ranks_before(counts, picks[p], i)
}

/// The first `limit` places of the ranking, best first.
pub open spec fn top_picks(counts: Seq<nat>, limit: nat) -> Seq<int> {
    choose|picks: Seq<int>| is_top_selection(counts, limit, picks)
}

/// The counts as numbers.
pub open spec fn counts_view(counts: Seq<u32>) -> Seq<nat> {
    Seq::new(counts.len(), |i: int| counts[i] as nat)
}

/// The places as numbers.
pub open spec fn places_view(places: Seq<usize>) -> Seq<int> {
    Seq::new(places.len(), |p: int| places[p] as int)
}

/// Fewer picks than places leave a place that is not picked.
pub proof fn lemma_some_place_left(picks: Seq<int>, n: int)
    requires
        0 <= picks.len() < n,
    ensures
        exists|i: int| 0 <= i < n && !picks.contains(i),
{
    if forall|i: int| 0 <= i < n ==> picks.contains(i) {
        lemma_int_range(0, n);
        seq_to_set_is_finite(picks);
        assert(set_int_range(0, n).subset_of(picks.to_set()));
        lemma_len_subset(set_int_range(0, n), picks.to_set());
        picks.lemma_cardinality_of_set();
    }
}

/// The place that ranks first among those of the first `n` places that `picks` leaves out,
/// if it leaves one out.
pub open spec fn best_left(counts: Seq<nat>, picks: Seq<int>, n: int) -> Option<int>
    decreases n,
{
    if n <= 0 {
        None
    } else if picks.contains(n - 1) {
        best_left(counts, picks, n - 1)
    } else {
        match best_left(counts, picks, n - 1) {
            None => Some(n - 1),
            Some(best) => if counts[n - 1] > counts[best] {
                Some(n - 1)
            } else {
                Some(best)
            },
        }
    }
}

/// The best place left out is left out, and ranks before every other place left out.
pub proof fn lemma_best_left(counts: Seq<nat>, picks: Seq<int>, n: int)
    requires
        0 <= n <= counts.len(),
    ensures
        match best_left(counts, picks, n) {
            None => forall|c: int| 0 <= c < n ==> picks.contains(c),
            Some(best) => {
                &&& 0 <= best < n
                &&& !picks.contains(best)
                &&& forall|c: int|
                    0 <= c < n && c != best && !#[trigger] picks.contains(c) ==> ranks_before(
                        counts,
                        best,
                        c,
                    )
            },
        },
    decreases n,
{
    if n > 0 {
        lemma_best_left(counts, picks, n - 1);
    }
}

/// There is a selection of the first `limit` places, whatever the counts.
pub proof fn lemma_top_selection_exists(counts: Seq<nat>, limit: nat)
    ensures
        is_top_selection(counts, limit, top_picks(counts, limit)),
    decreases limit,
{
    if limit == 0 {
        assert(is_top_selection(counts, limit, Seq::<int>::empty()));
    } else {
        lemma_top_selection_exists(counts, (limit - 1) as nat);
        let taken = top_picks(counts, (limit - 1) as nat);
        if taken.len() == counts.len() {
            assert(is_top_selection(counts, limit, taken));
        } else {
            let n = counts.len() as int;
            let round = taken.len() as int;
            lemma_some_place_left(taken, n);
            lemma_best_left(counts, taken, n);
            let best = best_left(counts, taken, n).unwrap();
            let grown = taken.push(best);
            assert forall|p: int, q: int| 0 <= p < q < grown.len() implies ranks_before(
                counts,
                #[trigger] grown[p],
                #[trigger] grown[q],
            ) by {
                if q == round {
                    assert(ranks_before(counts, taken[p], best));
                } else {
                    assert(ranks_before(counts, taken[p], taken[q]));
                }
            }
            assert forall|p: int, c: int|
                0 <= p < grown.len() && 0 <= c < n && !grown.contains(
                    c,
                ) implies #[trigger] ranks_before(counts, grown[p], c) by {
                assert(!taken.contains(c)) by {
                    if taken.contains(c) {
                        let q = choose|q: int| 0 <= q < taken.len() && taken[q] == c;
                        assert(grown[q] == c);
                    }
                }
                assert(c != best) by {
                    assert(grown[round] == best);
                }
                if p < round {
                    assert(ranks_before(counts, taken[p], c));
                } else {
                    assert(ranks_before(counts, best, c));
                }
            }
            assert(is_top_selection(counts, limit, grown));
        }
    }
}

/// Two selections of the same counts agree up to any place.
proof fn lemma_selections_agree(counts: Seq<nat>, limit: nat, a: Seq<int>, b: Seq<int>, n: int)
    requires
        is_top_selection(counts, limit, a),
        is_top_selection(counts, limit, b),
        0 <= n <= a.len(),
    ensures
        forall|p: int| 0 <= p < n ==> a[p] == b[p],
    decreases n,
{
    if n > 0 {
        lemma_selections_agree(counts, limit, a, b, n - 1);
        let p = n - 1;
        if a[p] != b[p] {
            // Each of the two is either further down the other selection or outside it, so
            // each would rank before the other.
            assert(ranks_before(counts, b[p], a[p])) by {
                if b.contains(a[p]) {
                    let q = choose|q: int| 0 <= q < b.len() && b[q] == a[p];
                    if q < p {
                        assert(a[q] == b[q]);
                        assert(ranks_before(counts, a[q], a[p]));
                    }
                }
            }
            assert(ranks_before(counts, a[p], b[p])) by {
                if a.contains(b[p]) {
                    let q = choose|q: int| 0 <= q < a.len() && a[q] == b[p];
                    if q < p {
                        assert(a[q] == b[q]);
                        assert(ranks_before(counts, b[q], b[p]));
                    }
                }
            }
        }
    }
}

/// There is only one selection of the first `limit` places.
pub proof fn lemma_top_selection_unique(counts: Seq<nat>, limit: nat, picks: Seq<int>)
    requires
        is_top_selection(counts, limit, picks),
    ensures
        top_picks(counts, limit) == picks,
{
    let chosen = top_picks(counts, limit);
    lemma_selections_agree(counts, limit, chosen, picks, chosen.len() as int);
    assert(chosen =~= picks);
}

/// Selects the places of the `limit` highest counts, highest first. Of equal counts the one
/// that stands earlier comes first.
pub fn top_indices(counts: &Vec<u32>, limit: usize) -> (picks: Vec<usize>)
    ensures
        is_top_selection(counts_view(counts@), limit as nat, places_view(picks@)),
        top_picks(counts_view(counts@), limit as nat) == places_view(picks@),
        picks.len() <= limit,
{
    let n = counts.len();
    let ghost ranked = counts_view(counts@);
    let mut picks: Vec<usize> = Vec::new();
    while picks.len() < limit && picks.len() < n
        invariant
            n == counts.len(),
            ranked == counts_view(counts@),
            picks.len() <= limit,
            picks.len() <= n,
            forall|p: int| 0 <= p < picks.len() ==> 0 <= #[trigger] places_view(picks@)[p] < n,
            forall|p: int, q: int|
                0 <= p < q < picks.len() ==> ranks_before(
                    ranked,
                    #[trigger] places_view(picks@)[p],
                    #[trigger] places_view(picks@)[q],
                ),
            forall|p: int, i: int|
                0 <= p < picks.len() && 0 <= i < n && !places_view(picks@).contains(i)
                    ==> #[trigger] ranks_before(ranked, places_view(picks@)[p], i),
        decreases n - picks.len(),
    {
        let ghost taken = places_view(picks@);
        let round = picks.len();
        let mut best: Option<usize> = None;
        let mut i: usize = 0;
        while i < n
            invariant
                i <= n,
                n == counts.len(),
                ranked == counts_view(counts@),
                taken == places_view(picks@),
                round == picks.len(),
                forall|p: int| 0 <= p < round ==> 0 <= #[trigger] taken[p] < n,
                match best {
                    None => forall|c: int| 0 <= c < i ==> taken.contains(c),
                    Some(b) => {
                        &&& b < i
                        &&& !taken.contains(b as int)
                        &&& forall|c: int|
                            0 <= c < i && c != b && !#[trigger] taken.contains(c) ==> ranks_before(
                                ranked,
                                b as int,
                                c,
                            )
                    },
                },
                forall|p: int, c: int|
                    0 <= p < round && 0 <= c < n && !taken.contains(c) ==> #[trigger] ranks_before(
                        ranked,
                        taken[p],
                        c,
                    ),
                forall|p: int, q: int|
                    0 <= p < q < round ==> ranks_before(
                        ranked,
                        #[trigger] taken[p],
                        #[trigger] taken[q],
                    ),
            decreases n - i,
        {
            assert(round > 0 ==> taken[round - 1] == picks[round - 1] && picks[round - 1] < n);
            let free = round == 0 || counts[picks[round - 1]] > counts[i] || (counts[picks[round
                - 1]] == counts[i] && picks[round - 1] < i);
            proof {
                if round > 0 {
                    let last = taken[round - 1];
                    assert(free == ranks_before(ranked, last, i as int));
                    if taken.contains(i as int) {
                        let q = choose|q: int| 0 <= q < taken.len() && taken[q] == i as int;
                        if q < round - 1 {
                            assert(ranks_before(ranked, taken[q], taken[round - 1]));
                        }
                    }
                } else {
                    assert(!taken.contains(i as int));
                }
                assert(free == !taken.contains(i as int));
            }
            if free {
                match best {
                    None => {
                        best = Some(i);
                    },
                    Some(b) => {
                        if counts[i] > counts[b] {
                            best = Some(i);
                        }
                    },
                }
            }
            i += 1;
        }
        proof {
            lemma_some_place_left(taken, n as int);
        }
        match best {
            None => {
                assert(false);
            },
            Some(b) => {
                picks.push(b);
                proof {
                    let grown = places_view(picks@);
                    assert(grown =~= taken.push(b as int));
                    assert forall|p: int, q: int| 0 <= p < q < grown.len() implies ranks_before(
                        ranked,
                        #[trigger] grown[p],
                        #[trigger] grown[q],
                    ) by {
                        if q == round {
                            assert(ranks_before(ranked, taken[p], b as int));
                        } else {
                            assert(ranks_before(ranked, taken[p], taken[q]));
                        }
                    }
                    assert forall|p: int, c: int|
                        0 <= p < grown.len() && 0 <= c < n && !grown.contains(
                            c,
                        ) implies #[trigger] ranks_before(ranked, grown[p], c) by {
                        assert(!taken.contains(c)) by {
                            if taken.contains(c) {
                                let q = choose|q: int| 0 <= q < taken.len() && taken[q] == c;
                                assert(grown[q] == c);
                            }
                        }
                        assert(c != b) by {
                            assert(grown[round as int] == b);
                        }
                        if p < round {
                            assert(ranks_before(ranked, taken[p], c));
                        } else {
                            assert(ranks_before(ranked, b as int, c));
                        }
                    }
                }
            },
        }
    }
    proof {
        lemma_top_selection_unique(ranked, limit as nat, places_view(picks@));
    }
    picks
}

} // verus!
