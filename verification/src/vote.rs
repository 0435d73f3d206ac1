//! The score-weighted vote among the nearest references: each label collects
//! the similarities of the neighbours that carry it, and the label with the
//! largest sum wins (then the one with more neighbours). Sums of fractions
//! are compared exactly, over the common denominator of all the scores.
use vstd::prelude::*;

use crate::binary::Similarity;
use crate::wide::{compare, from_word, limbs_value, scale, sum_of, Comparison};

verus! {

/// Score `i` put over the common denominator of the first `n` scores, as a
/// product: its own numerator times the denominators of the others.
pub open spec fn over_common(scores: Seq<Similarity>, i: int, n: nat) -> nat
    decreases n,
{
    if n == 0 {
        1
    } else {
        over_common(scores, i, (n - 1) as nat) * if n - 1 == i {
            scores[n - 1].numerator as nat
        } else {
            scores[n - 1].denominator as nat
        }
    }
}

/// The summed score of the neighbours among the first `n` that carry
/// `label`, over the common denominator of all the scores.
pub open spec fn label_total(scores: Seq<Similarity>, labels: Seq<usize>, label: usize, n: nat) -> nat
    decreases n,
{
    if n == 0 {
        0
    } else {
        label_total(scores, labels, label, (n - 1) as nat) + if labels[n - 1] == label {
            over_common(scores, n - 1, scores.len())
        } else {
            0
        }
    }
}

/// How many of the first `n` neighbours carry `label`.
pub open spec fn label_votes(labels: Seq<usize>, label: usize, n: nat) -> nat
    decreases n,
{
    if n == 0 {
        0
    } else {
        label_votes(labels, label, (n - 1) as nat) + if labels[n - 1] == label {
            1nat
        } else {
            0nat
        }
    }
}

/// Label `a` wins over label `b`: a larger summed score, or an equal one
/// carried by more neighbours.
pub open spec fn outvotes(scores: Seq<Similarity>, labels: Seq<usize>, a: usize, b: usize) -> bool {
    let n = labels.len();
    label_total(scores, labels, a, n) > label_total(scores, labels, b, n) || (label_total(
        scores,
        labels,
        a,
        n,
    ) == label_total(scores, labels, b, n) && label_votes(labels, a, n) > label_votes(
        labels,
        b,
        n,
    ))
}

/// Position of the first neighbour carrying `label`.
pub open spec fn first_vote(labels: Seq<usize>, label: usize) -> int {
    choose|p: int| 0 <= p < labels.len() && labels[p] == label && forall|j: int| 0 <= j < p ==> labels[j] != label
}

/// The outcome of the vote: none without neighbours; otherwise a label of
/// a neighbour that no label outvotes and that outvotes every label met
/// before it (the first in neighbour order among those tied at the top).
pub open spec fn is_vote_outcome(scores: Seq<Similarity>, labels: Seq<usize>, r: Option<usize>) -> bool {
    match r {
        None => labels.len() == 0,
        Some(w) => {
            &&& labels.contains(w)
            &&& forall|j: int| 0 <= j < labels.len() ==> !#[trigger] outvotes(scores, labels, labels[j], w)
            &&& forall|j: int| 0 <= j < first_vote(labels, w) ==> #[trigger] outvotes(scores, labels, w, labels[j])
        },
    }
}

proof fn lemma_first_vote(labels: Seq<usize>, p: int)
    requires
        0 <= p < labels.len(),
        forall|j: int| 0 <= j < p ==> labels[j] != labels[p],
    ensures
        first_vote(labels, labels[p]) == p,
{
    let label = labels[p];
    assert(0 <= p < labels.len() && labels[p] == label && forall|j: int| 0 <= j < p ==> labels[j] != label);
    let q = first_vote(labels, label);
    if q < p {
        assert(labels[q] == label);
    } else if q > p {
        assert(labels[p] != label);
    }
}

/// Score `i` over the common denominator.
fn term(scores: &[Similarity], i: usize) -> (r: Vec<u64>)
    requires
        i < scores@.len(),
    ensures
        limbs_value(r@) == over_common(scores@, i as int, scores@.len()),
{
    let mut acc = from_word(1);
    let mut j: usize = 0;
    while j < scores.len()
        invariant
            j <= scores@.len(),
            limbs_value(acc@) == over_common(scores@, i as int, j as nat),
        decreases scores@.len() - j,
    {
        let factor = if j == i {
            scores[j].numerator
        } else {
            scores[j].denominator
        };
        acc = scale(&acc, factor as u64);
        j = j + 1;
    }
    acc
}

/// The summed score and the number of votes of one label.
fn tally(terms: &Vec<Vec<u64>>, labels: &[usize], label: usize, Ghost(scores): Ghost<Seq<Similarity>>) -> (r: (
    Vec<u64>,
    usize,
))
    requires
        terms@.len() == labels@.len(),
        scores.len() == labels@.len(),
        forall|t: int|
            0 <= t < terms@.len() ==> limbs_value(#[trigger] terms@[t]@) == over_common(
                scores,
                t,
                scores.len(),
            ),
    ensures
        limbs_value(r.0@) == label_total(scores, labels@, label, labels@.len()),
        r.1 == label_votes(labels@, label, labels@.len()),
{
    let mut total = from_word(0);
    let mut votes: usize = 0;
    let mut t: usize = 0;
    while t < labels.len()
        invariant
            t <= labels@.len(),
            terms@.len() == labels@.len(),
            scores.len() == labels@.len(),
            forall|u: int|
                0 <= u < terms@.len() ==> limbs_value(#[trigger] terms@[u]@) == over_common(
                    scores,
                    u,
                    scores.len(),
                ),
            limbs_value(total@) == label_total(scores, labels@, label, t as nat),
            votes == label_votes(labels@, label, t as nat),
            votes <= t,
        decreases labels@.len() - t,
    {
        if labels[t] == label {
            total = sum_of(&total, &terms[t]);
            votes = votes + 1;
        }
        t = t + 1;
    }
    (total, votes)
}

/// The vote among neighbours with the given scores and labels, as
/// `is_vote_outcome` states.
pub fn weighted_vote(scores: &[Similarity], labels: &[usize]) -> (r: Option<usize>)
    requires
        scores@.len() == labels@.len(),
    ensures
        is_vote_outcome(scores@, labels@, r),
{
    let n = labels.len();
    let mut terms: Vec<Vec<u64>> = Vec::new();
    let mut i: usize = 0;
    while i < n
        invariant
            i <= n,
            n == labels@.len(),
            n == scores@.len(),
            terms@.len() == i,
            forall|t: int|
                0 <= t < i ==> limbs_value(#[trigger] terms@[t]@) == over_common(
                    scores@,
                    t,
                    scores@.len(),
                ),
        decreases n - i,
    {
        terms.push(term(scores, i));
        i = i + 1;
    }
    let ghost sc = scores@;
    let ghost ls = labels@;
    let mut best: Option<usize> = None;
    let mut best_total: Vec<u64> = from_word(0);
    let mut best_votes: usize = 0;
    let mut p: usize = 0;
    while p < n
        invariant
            p <= n,
            n == ls.len(),
            n == sc.len(),
            sc == scores@,
            ls == labels@,
            terms@.len() == n,
            forall|t: int|
                0 <= t < n ==> limbs_value(#[trigger] terms@[t]@) == over_common(sc, t, sc.len()),
            best is None <==> p == 0,
            best matches Some(w) ==> {
                &&& limbs_value(best_total@) == label_total(sc, ls, w, n as nat)
                &&& best_votes == label_votes(ls, w, n as nat)
                &&& exists|q: int| 0 <= q < p && #[trigger] ls[q] == w && first_vote(ls, w) == q
                &&& forall|j: int| 0 <= j < p ==> !#[trigger] outvotes(sc, ls, ls[j], w)
                &&& forall|j: int| 0 <= j < first_vote(ls, w) ==> #[trigger] outvotes(sc, ls, w, ls[j])
            },
        decreases n - p,
    {
        let candidate = labels[p];
        let mut seen = false;
        let mut q: usize = 0;
        while q < p
            invariant
                q <= p,
                p < n,
                n == ls.len(),
                ls == labels@,
                candidate == ls[p as int],
                seen <==> exists|j: int| 0 <= j < q && ls[j] == candidate,
            decreases p - q,
        {
            if labels[q] == candidate {
                seen = true;
            }
            q = q + 1;
        }
        if seen {
            proof {
                let j0 = choose|j: int| 0 <= j < p && ls[j] == candidate;
                assert(!outvotes(sc, ls, ls[j0], best->0));
            }
        } else {
            proof {
                lemma_first_vote(ls, p as int);
            }
            let (total, votes) = tally(&terms, labels, candidate, Ghost(sc));
            let wins = match best {
                None => true,
                Some(_) => match compare(&total, &best_total) {
                    Comparison::Greater => true,
                    Comparison::Equal => votes > best_votes,
                    Comparison::Less => false,
                },
            };
            if wins {
                proof {
                    if p > 0 {
                        let w = best->0;
                        assert(outvotes(sc, ls, candidate, w));
                        assert forall|j: int| 0 <= j < p + 1 implies !#[trigger] outvotes(sc, ls, ls[j], candidate) by {
                            if j < p {
                                assert(!outvotes(sc, ls, ls[j], w));
                            }
                        }
                        assert forall|j: int| 0 <= j < first_vote(ls, candidate) implies #[trigger] outvotes(sc, ls, candidate, ls[j]) by {
                            assert(!outvotes(sc, ls, ls[j], w));
                        }
                    }
                    assert(ls[p as int] == candidate);
                }
                best = Some(candidate);
                best_total = total;
                best_votes = votes;
            } else {
                proof {
                    assert(!outvotes(sc, ls, candidate, best->0));
                }
            }
        }
        p = p + 1;
    }
    proof {
        if best is Some {
            let w = best->0;
            let q = choose|q: int| 0 <= q < p && #[trigger] ls[q] == w && first_vote(ls, w) == q;
            assert(ls.contains(w));
        }
    }
    best
}

proof fn lemma_first_position_below(labels: Seq<usize>, label: usize, k: int)
    requires
        0 <= k < labels.len(),
        labels[k] == label,
    ensures
        exists|p: int|
            0 <= p <= k && labels[p] == label && forall|j: int| 0 <= j < p ==> labels[j] != label,
    decreases k,
{
    if exists|j: int| 0 <= j < k && labels[j] == label {
        let j = choose|j: int| 0 <= j < k && labels[j] == label;
        lemma_first_position_below(labels, label, j);
    } else {
        assert(0 <= k <= k && labels[k] == label && forall|j: int| 0 <= j < k ==> labels[j] != label);
    }
}

/// A label that occurs among the neighbours has a first position.
pub proof fn lemma_first_vote_exists(labels: Seq<usize>, label: usize)
    requires
        labels.contains(label),
    ensures
        0 <= first_vote(labels, label) < labels.len(),
        labels[first_vote(labels, label)] == label,
        forall|j: int| 0 <= j < first_vote(labels, label) ==> labels[j] != label,
{
    let k = choose|k: int| 0 <= k < labels.len() && labels[k] == label;
    lemma_first_position_below(labels, label, k);
}

} // verus!
