//! A library of labelled binary reference vectors, compared with a query by
//! Hamming or Jaccard similarity.
use vstd::prelude::*;

use crate::binary::{
    binary_similarity, contribution_ranking, similarity_wf, take_at_most, BinarySimilarityMetric,
    BinaryVector, BitContribution, PancError, Similarity,
};
use crate::binary::{both_at, differ_at, either_at};
use crate::bits::{lemma_count_where_bound, lemma_count_where_implies};
use crate::vote::{is_vote_outcome, weighted_vote};
use vstd::pervasive::cloned;
use vstd::set_lib::{lemma_int_range, lemma_len_subset, set_int_range};

verus! {

/// A stored analogue.
pub struct BinaryReference<L, M> {
    pub vector: BinaryVector,
    pub label: L,
    pub metadata: M,
}

/// A reference matched against a query: its position in the library, its
/// similarity to the query, and copies of its label and metadata.
pub struct BinaryNeighbor<L, M> {
    pub index: usize,
    pub score: Similarity,
    pub label: L,
    pub metadata: M,
}

/// The best-matching references and the bits of the best one that agree most
/// with the query.
pub struct BinaryExplanation<L, M> {
    pub neighbors: Vec<BinaryNeighbor<L, M>>,
    pub contributions: Vec<(usize, BitContribution)>,
}

/// A comparator over a library of references of one common, nonzero length.
pub struct BinaryPancComparator<L, M> {
    metric: BinarySimilarityMetric,
    dimension: Option<usize>,
    references: Vec<BinaryReference<L, M>>,
}

/// `a` ranks strictly above `b`: a larger similarity, or an equal one at a
/// smaller library position.
pub open spec fn ranks_before(scores: Seq<Similarity>, i: int, j: int) -> bool {
    let a = scores[i];
    let b = scores[j];
    a.numerator * b.denominator > b.numerator * a.denominator || (a.numerator * b.denominator
        == b.numerator * a.denominator && i < j)
}

/// `order` lists the `m` best library positions, best first.
pub open spec fn is_top_ranking(scores: Seq<Similarity>, order: Seq<int>, m: nat) -> bool {
    &&& order.len() == m
    &&& forall|t: int| 0 <= t < order.len() ==> 0 <= #[trigger] order[t] < scores.len()
    &&& forall|t: int, u: int|
        0 <= t < u < order.len() ==> ranks_before(scores, #[trigger] order[t], #[trigger] order[u])
    &&& forall|t: int, j: int|
        0 <= t < order.len() && 0 <= j < scores.len() && !order.contains(j)
            ==> #[trigger] ranks_before(scores, order[t], j)
}

pub open spec fn min_nat(a: nat, b: nat) -> nat {
    if a < b {
        a
    } else {
        b
    }
}

/// Positions of a list of neighbors, in order.
pub open spec fn neighbor_indices<L, M>(ns: Seq<BinaryNeighbor<L, M>>) -> Seq<int> {
    ns.map_values(|n: BinaryNeighbor<L, M>| n.index as int)
}

/// Scores are fractions in `[0, 1]` with positive denominators.
pub proof fn lemma_scores_wf(metric: BinarySimilarityMetric, a: Seq<bool>, b: Seq<bool>)
    requires
        a.len() == b.len(),
        a.len() <= usize::MAX,
    ensures
        similarity_wf(binary_similarity(metric, a, b)),
{
    lemma_count_where_bound(a.len(), differ_at(a, b));
    lemma_count_where_implies(a.len(), both_at(a, b), either_at(a, b));
    lemma_count_where_bound(a.len(), either_at(a, b));
}

/// Ranking is a strict total order on positions of well-formed scores.
pub proof fn lemma_ranks_before_order(scores: Seq<Similarity>, i: int, j: int, l: int)
    requires
        0 <= i < scores.len(),
        0 <= j < scores.len(),
        0 <= l < scores.len(),
        forall|t: int| 0 <= t < scores.len() ==> similarity_wf(#[trigger] scores[t]),
    ensures
        !ranks_before(scores, i, i),
        i != j ==> ranks_before(scores, i, j) || ranks_before(scores, j, i),
        ranks_before(scores, i, j) ==> !ranks_before(scores, j, i),
        ranks_before(scores, i, j) && ranks_before(scores, j, l) ==> ranks_before(scores, i, l),
{
    let a = scores[i];
    let b = scores[j];
    let c = scores[l];
    assert(similarity_wf(a) && similarity_wf(b) && similarity_wf(c));
    let (an, ad, bn, bd, cn, cd) = (
        a.numerator as int,
        a.denominator as int,
        b.numerator as int,
        b.denominator as int,
        c.numerator as int,
        c.denominator as int,
    );
    assert(an * bd > bn * ad && bn * cd > cn * bd ==> an * cd > cn * ad) by (nonlinear_arith)
        requires
            ad > 0,
            bd > 0,
            cd > 0,
    ;
    assert(an * bd >= bn * ad && bn * cd >= cn * bd ==> an * cd >= cn * ad) by (nonlinear_arith)
        requires
            ad > 0,
            bd > 0,
            cd > 0,
    ;
    assert(an * bd == bn * ad && bn * cd == cn * bd ==> an * cd == cn * ad) by (nonlinear_arith)
        requires
            ad > 0,
            bd > 0,
            cd > 0,
    ;
    assert(an * bd > bn * ad && bn * cd == cn * bd ==> an * cd > cn * ad) by (nonlinear_arith)
        requires
            ad > 0,
            bd > 0,
            cd > 0,
    ;
    assert(an * bd == bn * ad && bn * cd > cn * bd ==> an * cd > cn * ad) by (nonlinear_arith)
        requires
            ad > 0,
            bd > 0,
            cd > 0,
    ;
}

proof fn lemma_top_ranking_prefix(scores: Seq<Similarity>, o1: Seq<int>, o2: Seq<int>, m: nat, t: int)
    requires
        is_top_ranking(scores, o1, m),
        is_top_ranking(scores, o2, m),
        forall|i: int| 0 <= i < scores.len() ==> similarity_wf(#[trigger] scores[i]),
        0 <= t < m,
    ensures
        forall|u: int| 0 <= u <= t ==> o1[u] == o2[u],
    decreases t,
{
    if t > 0 {
        lemma_top_ranking_prefix(scores, o1, o2, m, t - 1);
    }
    let a = o1[t];
    let b = o2[t];
    if a != b {
        lemma_ranks_before_order(scores, a, b, a);
        if ranks_before(scores, a, b) {
            if o2.contains(a) {
                let v = choose|v: int| 0 <= v < o2.len() && o2[v] == a;
                if v < t {
                    assert(o1[v] == o2[v]);
                    assert(ranks_before(scores, o1[v], o1[t]));
                    lemma_ranks_before_order(scores, a, a, a);
                } else {
                    assert(v != t);
                    assert(ranks_before(scores, o2[t], o2[v]));
                }
            } else {
                assert(ranks_before(scores, o2[t], a));
            }
        } else {
            assert(ranks_before(scores, b, a));
            if o1.contains(b) {
                let v = choose|v: int| 0 <= v < o1.len() && o1[v] == b;
                if v < t {
                    assert(o1[v] == o2[v]);
                    assert(ranks_before(scores, o2[v], o2[t]));
                    lemma_ranks_before_order(scores, b, b, b);
                } else {
                    assert(v != t);
                    assert(ranks_before(scores, o1[t], o1[v]));
                }
            } else {
                assert(ranks_before(scores, o1[t], b));
            }
        }
    }
}

/// The best `m` positions are one list: two rankings of the same
/// well-formed scores are equal.
pub proof fn lemma_top_ranking_unique(scores: Seq<Similarity>, o1: Seq<int>, o2: Seq<int>, m: nat)
    requires
        is_top_ranking(scores, o1, m),
        is_top_ranking(scores, o2, m),
        forall|i: int| 0 <= i < scores.len() ==> similarity_wf(#[trigger] scores[i]),
    ensures
        o1 == o2,
{
    if m > 0 {
        lemma_top_ranking_prefix(scores, o1, o2, m, m - 1);
    }
    assert(o1 =~= o2);
}

/// Fewer than `n` positions leave some position of `0..n` out.
proof fn lemma_untaken_exists(order: Seq<int>, n: nat)
    requires
        order.len() < n,
    ensures
        exists|j: int| 0 <= j < n && !order.contains(j),
{
    if forall|j: int| 0 <= j < n ==> order.contains(j) {
        lemma_int_range(0, n as int);
        assert(set_int_range(0, n as int).subset_of(order.to_set()));
        order.lemma_cardinality_of_set();
        vstd::seq_lib::seq_to_set_is_finite(order);
        lemma_len_subset(set_int_range(0, n as int), order.to_set());
        assert(false);
    }
}

/// Whether score `a` at position `ai` ranks strictly above score `b` at `bi`.
fn ranks_above(a: Similarity, ai: usize, b: Similarity, bi: usize) -> (r: bool)
    ensures
        r == ((a.numerator * b.denominator > b.numerator * a.denominator) || (a.numerator
            * b.denominator == b.numerator * a.denominator && ai < bi)),
{
    let an = a.numerator as u128;
    let ad = a.denominator as u128;
    let bn = b.numerator as u128;
    let bd = b.denominator as u128;
    assert(an * bd <= 0xffff_ffff_ffff_ffff_u128 * 0xffff_ffff_ffff_ffff_u128) by (nonlinear_arith)
        requires
            an <= 0xffff_ffff_ffff_ffff_u128,
            bd <= 0xffff_ffff_ffff_ffff_u128,
    ;
    assert(bn * ad <= 0xffff_ffff_ffff_ffff_u128 * 0xffff_ffff_ffff_ffff_u128) by (nonlinear_arith)
        requires
            bn <= 0xffff_ffff_ffff_ffff_u128,
            ad <= 0xffff_ffff_ffff_ffff_u128,
    ;
    let left = an * bd;
    let right = bn * ad;
    left > right || (left == right && ai < bi)
}

impl<L, M> BinaryPancComparator<L, M> {
    #[verifier::type_invariant]
    spec fn well_formed(self) -> bool {
        match self.dimension {
            None => self.references.len() == 0,
            Some(d) => d > 0 && forall|i: int|
                0 <= i < self.references.len() ==> (#[trigger] self.references[i]).vector@.len()
                    == d,
        }
    }

    /// The similarity used to compare vectors.
    pub closed spec fn spec_metric(&self) -> BinarySimilarityMetric {
        self.metric
    }

    /// The common length of the references, once one has been added.
    pub closed spec fn spec_dimension(&self) -> Option<usize> {
        self.dimension
    }

    /// The stored references.
    pub closed spec fn spec_references(&self) -> Seq<BinaryReference<L, M>> {
        self.references@
    }

    /// Similarity of the query to each reference, in library order.
    pub open spec fn spec_scores(&self, query: Seq<bool>) -> Seq<Similarity> {
        Seq::new(
            self.spec_references().len(),
            |i: int| binary_similarity(self.spec_metric(), query, self.spec_references()[i].vector@),
        )
    }

    /// `ns` are the `k` references most similar to `query` (all of them when
    /// there are fewer), best first, ties in library order, each with its
    /// score and copies of its label and metadata.
    pub open spec fn spec_top_k(&self, query: Seq<bool>, k: nat, ns: Seq<BinaryNeighbor<L, M>>) -> bool where
        L: Clone,
        M: Clone,
     {
        &&& is_top_ranking(
            self.spec_scores(query),
            neighbor_indices(ns),
            min_nat(k, self.spec_references().len()),
        )
        &&& forall|t: int|
            0 <= t < ns.len() ==> {
                let n = #[trigger] ns[t];
                &&& n.score == self.spec_scores(query)[n.index as int]
                &&& cloned(self.spec_references()[n.index as int].label, n.label)
                &&& cloned(self.spec_references()[n.index as int].metadata, n.metadata)
            }
    }

    /// The query is refused when its length differs from the references'.
    pub open spec fn spec_refuses(&self, query: Seq<bool>) -> bool {
        self.spec_dimension() is Some && self.spec_dimension()->0 != query.len()
    }

    /// An empty comparator.
    pub fn new(metric: BinarySimilarityMetric) -> (r: Self)
        ensures
            r.spec_metric() == metric,
            r.spec_dimension() is None,
            r.spec_references().len() == 0,
    {
        BinaryPancComparator { metric, dimension: None, references: Vec::new() }
    }

    fn validate_dimension(&mut self, actual: usize) -> (r: Result<(), PancError>)
        ensures
            actual == 0 ==> r == Err::<(), PancError>(PancError::EmptyReferenceVector),
            actual != 0 && old(self).dimension is Some && old(self).dimension->0 != actual ==> r
                == Err::<(), PancError>(
                PancError::DimensionMismatch { expected: old(self).dimension->0, actual },
            ),
            r is Err ==> *final(self) == *old(self),
            actual != 0 && (old(self).dimension is Some ==> old(self).dimension->0 == actual)
                ==> r is Ok,
            r is Ok ==> final(self).dimension == Some(actual) && final(self).references
                == old(self).references && final(self).metric == old(self).metric,
    {
        proof {
            use_type_invariant(&*self);
        }
        if actual == 0 {
            return Err(PancError::EmptyReferenceVector);
        }
        match self.dimension {
            Some(expected) => {
                if expected != actual {
                    Err(PancError::DimensionMismatch { expected, actual })
                } else {
                    Ok(())
                }
            },
            None => {
                self.dimension = Some(actual);
                Ok(())
            },
        }
    }

    /// Stores a reference. Refuses an empty vector, and a vector whose length
    /// differs from that of the references already stored.
    pub fn add_reference(&mut self, vector: BinaryVector, label: L, metadata: M) -> (r: Result<
        (),
        PancError,
    >)
        ensures
            vector@.len() == 0 ==> r == Err::<(), PancError>(PancError::EmptyReferenceVector),
            vector@.len() != 0 && old(self).spec_dimension() is Some
                && old(self).spec_dimension()->0 != vector@.len() ==> r == Err::<(), PancError>(
                PancError::DimensionMismatch {
                    expected: old(self).spec_dimension()->0,
                    actual: vector@.len() as usize,
                },
            ),
            r is Err ==> final(self).spec_metric() == old(self).spec_metric()
                && final(self).spec_dimension() == old(self).spec_dimension()
                && final(self).spec_references() == old(self).spec_references(),
            vector@.len() != 0 && (old(self).spec_dimension() is Some
                ==> old(self).spec_dimension()->0 == vector@.len()) ==> r is Ok,
            r is Ok ==> final(self).spec_metric() == old(self).spec_metric()
                && final(self).spec_dimension() == Some(vector@.len() as usize)
                && final(self).spec_references() == old(self).spec_references().push(
                BinaryReference { vector, label, metadata },
            ),
            final(self).spec_dimension() is Some ==> forall|i: int|
                0 <= i < final(self).spec_references().len()
                    ==> (#[trigger] final(self).spec_references()[i]).vector@.len()
                    == final(self).spec_dimension()->0,
    {
        let n = vector.len();
        proof {
            use_type_invariant(&*self);
        }
        let checked = self.validate_dimension(n);
        match checked {
            Err(e) => Err(e),
            Ok(()) => {
                let ghost old_refs = self.references@;
                let mut references = Vec::new();
                std::mem::swap(&mut references, &mut self.references);
                references.push(BinaryReference { vector, label, metadata });
                proof {
                    assert forall|i: int| 0 <= i < references.len() implies (
                    #[trigger] references[i]).vector@.len() == n by {
                        if i < old_refs.len() {
                            assert(references[i] == old_refs[i]);
                        }
                    }
                }
                self.references = references;
                Ok(())
            },
        }
    }

    fn validate_query(&self, query: &BinaryVector) -> (r: Result<(), PancError>)
        ensures
            self.dimension is Some && self.dimension->0 != query@.len() ==> r == Err::<
                (),
                PancError,
            >(
                PancError::DimensionMismatch {
                    expected: self.dimension->0,
                    actual: query@.len() as usize,
                },
            ),
            !(self.dimension is Some && self.dimension->0 != query@.len()) ==> r is Ok,
    {
        match self.dimension {
            Some(expected) => {
                if expected != query.len() {
                    Err(PancError::DimensionMismatch { expected, actual: query.len() })
                } else {
                    Ok(())
                }
            },
            None => Ok(()),
        }
    }

    /// Similarity of the query to reference `i`.
    fn score_of(&self, query: &BinaryVector, i: usize) -> (r: Similarity)
        requires
            i < self.spec_references().len(),
            self.spec_dimension() is Some,
            self.spec_dimension()->0 == query@.len(),
        ensures
            r == self.spec_scores(query@)[i as int],
            similarity_wf(r),
    {
        proof {
            use_type_invariant(self);
        }
        let reference = &self.references[i];
        assert(reference.vector@.len() == query@.len());
        proof {
            query.lemma_view_len();
            lemma_scores_wf(self.metric, query@, reference.vector@);
        }
        let scored = match self.metric {
            BinarySimilarityMetric::Hamming => query.hamming_similarity(&reference.vector),
            BinarySimilarityMetric::Jaccard => query.jaccard_similarity(&reference.vector),
        };
        match scored {
            Ok(score) => score,
            Err(_) => {
                assert(false);
                Similarity { numerator: 0, denominator: 1 }
            },
        }
    }

    /// The `k` references most similar to the query (all of them when there
    /// are fewer), best first; equal scores keep library order. Refuses a
    /// query whose length differs from that of the stored references.
    pub fn top_k(&self, query: &BinaryVector, k: usize) -> (r: Result<
        Vec<BinaryNeighbor<L, M>>,
        PancError,
    >) where L: Clone, M: Clone
        ensures
            self.spec_dimension() is Some && self.spec_dimension()->0 != query@.len() ==> r
                == Err::<Vec<BinaryNeighbor<L, M>>, PancError>(
                PancError::DimensionMismatch {
                    expected: self.spec_dimension()->0,
                    actual: query@.len() as usize,
                },
            ),
            !(self.spec_dimension() is Some && self.spec_dimension()->0 != query@.len()) ==> r is Ok
                && self.spec_top_k(query@, k as nat, r->Ok_0@),
    {
        proof {
            use_type_invariant(self);
        }
        self.validate_query(query)?;
        let n = self.references.len();
        let ghost scores = self.spec_scores(query@);
        let mut computed: Vec<Similarity> = Vec::new();
        let mut taken: Vec<bool> = Vec::new();
        let mut i: usize = 0;
        while i < n
            invariant
                n == self.references.len(),
                n == scores.len(),
                i <= n,
                scores == self.spec_scores(query@),
                n > 0 ==> self.spec_dimension() is Some && self.spec_dimension()->0 == query@.len(),
                computed@ == scores.take(i as int),
                taken@.len() == i,
                forall|j: int| 0 <= j < i ==> !(#[trigger] taken@[j]),
            decreases n - i,
        {
            if self.dimension.is_none() {
                assert(false);
            }
            let score = self.score_of(query, i);
            computed.push(score);
            taken.push(false);
            assert(computed@ =~= scores.take(i + 1));
            i = i + 1;
        }
        assert(computed@ =~= scores);
        proof {
            assert forall|t: int| 0 <= t < scores.len() implies similarity_wf(#[trigger] scores[t]) by {
                query.lemma_view_len();
                lemma_scores_wf(self.metric, query@, self.references@[t].vector@);
            }
        }
        let m = if k < n {
            k
        } else {
            n
        };
        let mut neighbors: Vec<BinaryNeighbor<L, M>> = Vec::new();
        let mut t: usize = 0;
        while t < m
            invariant
                n == self.references.len(),
                n == scores.len(),
                m <= n,
                m == min_nat(k as nat, n as nat),
                t <= m,
                scores == self.spec_scores(query@),
                computed@ == scores,
                forall|j: int| 0 <= j < scores.len() ==> similarity_wf(#[trigger] scores[j]),
                taken@.len() == n,
                neighbors@.len() == t,
                forall|j: int|
                    0 <= j < n ==> (#[trigger] taken@[j] <==> neighbor_indices(neighbors@).contains(
                        j,
                    )),
                forall|a: int|
                    0 <= a < t ==> 0 <= #[trigger] neighbor_indices(neighbors@)[a] < n,
                forall|a: int, b: int|
                    0 <= a < b < t ==> ranks_before(
                        scores,
                        #[trigger] neighbor_indices(neighbors@)[a],
                        #[trigger] neighbor_indices(neighbors@)[b],
                    ),
                forall|a: int, j: int|
                    0 <= a < t && 0 <= j < n && !taken@[j] ==> #[trigger] ranks_before(
                        scores,
                        neighbor_indices(neighbors@)[a],
                        j,
                    ),
                forall|a: int|
                    0 <= a < t ==> {
                        let nb = #[trigger] neighbors@[a];
                        &&& nb.score == scores[nb.index as int]
                        &&& cloned(self.spec_references()[nb.index as int].label, nb.label)
                        &&& cloned(self.spec_references()[nb.index as int].metadata, nb.metadata)
                    },
            decreases m - t,
        {
            let ghost order = neighbor_indices(neighbors@);
            proof {
                lemma_untaken_exists(order, n as nat);
            }
            let mut best: usize = 0;
            let mut found = false;
            let mut j: usize = 0;
            while j < n
                invariant
                    n == taken@.len(),
                    n == computed@.len(),
                    computed@ == scores,
                    forall|x: int| 0 <= x < scores.len() ==> similarity_wf(#[trigger] scores[x]),
                    j <= n,
                    found ==> best < j && !taken@[best as int],
                    found ==> forall|x: int|
                        0 <= x < j && !taken@[x] && x != best ==> #[trigger] ranks_before(
                            scores,
                            best as int,
                            x,
                        ),
                    !found ==> forall|x: int| 0 <= x < j ==> #[trigger] taken@[x],
                decreases n - j,
            {
                if !taken[j] {
                    if !found || ranks_above(computed[j], j, computed[best], best) {
                        proof {
                            if found {
                                assert forall|x: int|
                                    0 <= x < j + 1 && !taken@[x] && x != j implies #[trigger] ranks_before(
                                    scores,
                                    j as int,
                                    x,
                                ) by {
                                    lemma_ranks_before_order(scores, j as int, best as int, x);
                                }
                            }
                        }
                        best = j;
                        found = true;
                    } else {
                        proof {
                            lemma_ranks_before_order(scores, best as int, j as int, best as int);
                        }
                    }
                }
                j = j + 1;
            }
            if !found {
                proof {
                    let w = choose|w: int| 0 <= w < n && !order.contains(w);
                    assert(taken@[w]);
                }
                assert(false);
            }
            let reference = &self.references[best];
            let neighbor = BinaryNeighbor {
                index: best,
                score: computed[best],
                label: reference.label.clone(),
                metadata: reference.metadata.clone(),
            };
            let ghost old_neighbors = neighbors@;
            let ghost old_taken = taken@;
            neighbors.push(neighbor);
            taken.set(best, true);
            proof {
                let new_order = neighbor_indices(neighbors@);
                assert(new_order =~= order.push(best as int));
                assert forall|x: int| 0 <= x < n implies (#[trigger] taken@[x]
                    <==> neighbor_indices(neighbors@).contains(x)) by {
                    if x == best {
                        assert(new_order[t as int] == x);
                    } else {
                        assert(taken@[x] == old_taken[x]);
                        if order.contains(x) {
                            let y = choose|y: int| 0 <= y < order.len() && order[y] == x;
                            assert(new_order[y] == x);
                        }
                        if new_order.contains(x) {
                            let y = choose|y: int| 0 <= y < new_order.len() && new_order[y] == x;
                            if y < t {
                                assert(order[y] == x);
                            }
                        }
                    }
                }
                assert forall|a: int, b: int| 0 <= a < b < t + 1 implies ranks_before(
                    scores,
                    #[trigger] new_order[a],
                    #[trigger] new_order[b],
                ) by {
                    if b == t {
                        assert(!old_taken[best as int]);
                        assert(new_order[a] == order[a]);
                    } else {
                        assert(new_order[a] == order[a]);
                        assert(new_order[b] == order[b]);
                    }
                }
                assert forall|a: int, x: int|
                    0 <= a < t + 1 && 0 <= x < n && !taken@[x] implies #[trigger] ranks_before(
                    scores,
                    new_order[a],
                    x,
                ) by {
                    assert(x != best);
                    assert(!old_taken[x]);
                    if a == t {
                        assert(new_order[a] == best);
                    } else {
                        assert(new_order[a] == order[a]);
                    }
                }
                assert forall|a: int| 0 <= a < t + 1 implies {
                    let nb = #[trigger] neighbors@[a];
                    &&& nb.score == scores[nb.index as int]
                    &&& cloned(self.spec_references()[nb.index as int].label, nb.label)
                    &&& cloned(self.spec_references()[nb.index as int].metadata, nb.metadata)
                } by {
                    if a < t {
                        assert(neighbors@[a] == old_neighbors[a]);
                    }
                }
            }
            t = t + 1;
        }
        proof {
            let order = neighbor_indices(neighbors@);
            assert forall|a: int, x: int|
                0 <= a < order.len() && 0 <= x < scores.len() && !order.contains(x) implies #[trigger] ranks_before(
                scores,
                order[a],
                x,
            ) by {
                assert(!taken@[x]);
            }
        }
        Ok(neighbors)
    }


    /// The best matches for the query, and the bit positions of the best
    /// match that agree most with the query (at most `top_bits` of them).
    pub fn explain(&self, query: &BinaryVector, k: usize, top_bits: usize) -> (r: Result<
        BinaryExplanation<L, M>,
        PancError,
    >) where L: Clone, M: Clone
        ensures
            self.spec_refuses(query@) ==> r is Err && r->Err_0 == (PancError::DimensionMismatch {
                expected: self.spec_dimension()->0,
                actual: query@.len() as usize,
            }),
            !self.spec_refuses(query@) ==> r is Ok && self.spec_top_k(
                query@,
                k as nat,
                r->Ok_0.neighbors@,
            ) && r->Ok_0.contributions@ == (if r->Ok_0.neighbors@.len() == 0 {
                Seq::empty()
            } else {
                take_at_most(
                    contribution_ranking(
                        query@,
                        self.spec_references()[r->Ok_0.neighbors@[0].index as int].vector@,
                    ),
                    top_bits as nat,
                )
            }),
    {
        proof {
            use_type_invariant(self);
        }
        let neighbors = self.top_k(query, k)?;
        let contributions = if neighbors.len() > 0 {
            let best = neighbors[0].index;
            assert(neighbor_indices(neighbors@)[0] == best);
            let reference = &self.references[best];
            match query.contributing_bits(&reference.vector, top_bits) {
                Ok(bits) => bits,
                Err(_) => {
                    assert(false);
                    Vec::new()
                },
            }
        } else {
            Vec::new()
        };
        Ok(BinaryExplanation { neighbors, contributions })
    }

}

/// The similarities of a list of neighbours, in order.
pub open spec fn neighbor_scores<L, M>(ns: Seq<BinaryNeighbor<L, M>>) -> Seq<Similarity> {
    ns.map_values(|n: BinaryNeighbor<L, M>| n.score)
}

/// The labels of a list of neighbours, in order.
pub open spec fn neighbor_labels<M>(ns: Seq<BinaryNeighbor<usize, M>>) -> Seq<usize> {
    ns.map_values(|n: BinaryNeighbor<usize, M>| n.label)
}

impl<M> BinaryPancComparator<usize, M> {
    /// The label the `k` nearest references vote for, each weighted by its
    /// similarity (see `weighted_vote`); `None` when there is no reference
    /// or `k` is 0. Refuses a query whose length differs from that of the
    /// stored references.
    pub fn predict_label(&self, query: &BinaryVector, k: usize) -> (r: Result<Option<usize>, PancError>) where
        M: Clone,
        ensures
            self.spec_refuses(query@) ==> r == Err::<Option<usize>, PancError>(
                PancError::DimensionMismatch {
                    expected: self.spec_dimension()->0,
                    actual: query@.len() as usize,
                },
            ),
            !self.spec_refuses(query@) ==> r is Ok && forall|ns: Seq<BinaryNeighbor<usize, M>>|
                #[trigger] self.spec_top_k(query@, k as nat, ns) ==> is_vote_outcome(
                    neighbor_scores(ns),
                    neighbor_labels(ns),
                    r->Ok_0,
                ),
            !self.spec_refuses(query@) ==> exists|ns: Seq<BinaryNeighbor<usize, M>>|
                #[trigger] self.spec_top_k(query@, k as nat, ns),
    {
        let neighbors = self.top_k(query, k)?;
        let mut scores: Vec<Similarity> = Vec::new();
        let mut labels: Vec<usize> = Vec::new();
        let mut i: usize = 0;
        while i < neighbors.len()
            invariant
                i <= neighbors@.len(),
                scores@ == neighbor_scores(neighbors@.take(i as int)),
                labels@ == neighbor_labels(neighbors@.take(i as int)),
            decreases neighbors@.len() - i,
        {
            scores.push(neighbors[i].score);
            labels.push(neighbors[i].label);
            i = i + 1;
            assert(scores@ =~= neighbor_scores(neighbors@.take(i as int)));
            assert(labels@ =~= neighbor_labels(neighbors@.take(i as int)));
        }
        assert(neighbors@.take(i as int) =~= neighbors@);
        let winner = weighted_vote(scores.as_slice(), labels.as_slice());
        assert(self.spec_top_k(query@, k as nat, neighbors@));
        proof {
            use_type_invariant(self);
            let sc = self.spec_scores(query@);
            assert forall|t: int| 0 <= t < sc.len() implies similarity_wf(#[trigger] sc[t]) by {
                query.lemma_view_len();
                lemma_scores_wf(self.metric, query@, self.references@[t].vector@);
            }
            assert forall|ns: Seq<BinaryNeighbor<usize, M>>| #[trigger]
                self.spec_top_k(query@, k as nat, ns) implies is_vote_outcome(
                neighbor_scores(ns),
                neighbor_labels(ns),
                winner,
            ) by {
                let m = min_nat(k as nat, self.spec_references().len());
                lemma_top_ranking_unique(sc, neighbor_indices(neighbors@), neighbor_indices(ns), m);
                assert forall|t: int| 0 <= t < ns.len() implies #[trigger] ns[t].index
                    == neighbors@[t].index && ns[t].label == neighbors@[t].label && ns[t].score
                    == neighbors@[t].score by {
                    assert(neighbor_indices(ns)[t] == neighbor_indices(neighbors@)[t]);
                    let lab = self.spec_references()[ns[t].index as int].label;
                    assert(cloned(lab, ns[t].label));
                    assert(cloned(lab, neighbors@[t].label));
                }
                assert(neighbor_scores(ns) =~= neighbor_scores(neighbors@));
                assert(neighbor_labels(ns) =~= neighbor_labels(neighbors@));
            }
        }
        Ok(winner)
    }
}

} // verus!
