//! Packed binary vectors: bit `i` of the vector is bit `i % 64` of word `i / 64`,
//! and every bit past the length is clear.
use vstd::prelude::*;

use crate::bits::{
    combine, count_ones, word_op, WordOp,
    bit_set, count_where, lemma_bit_and, lemma_bit_or, lemma_bit_set_one, lemma_bit_test, lemma_bit_xor,
    lemma_count_block, lemma_count_where_bound, lemma_count_where_ext, lemma_count_where_tail,
    lemma_ones_below_bound, lemma_word_position, lemma_zero_bits, packed_bit,
};

verus! {

/// Errors of the analogue comparators.
#[derive(Debug, Clone, Copy, PartialEq, Eq, Structural)]
pub enum PancError {
    /// A vector of length `actual` met one of length `expected`.
    DimensionMismatch { expected: usize, actual: usize },
    /// A reference vector had no component.
    EmptyReferenceVector,
}

/// How two binary vectors are compared.
#[derive(Debug, Clone, Copy, PartialEq, Eq, Structural)]
pub enum BinarySimilarityMetric {
    Hamming,
    Jaccard,
}

/// An exact similarity score `numerator / denominator`; its value as a real
/// number is what the comparators rank by.
#[derive(Debug, Clone, Copy, PartialEq, Eq, Structural)]
pub struct Similarity {
    pub numerator: usize,
    pub denominator: usize,
}

/// A well-formed score: a fraction in `[0, 1]` with a positive denominator.
pub open spec fn similarity_wf(s: Similarity) -> bool {
    s.denominator > 0 && s.numerator <= s.denominator
}

/// How much one bit position contributes to the agreement of two vectors:
/// set in both (weight 1), clear in both (weight 1/2), or different (weight 0).
#[derive(Debug, Clone, Copy, PartialEq, Eq, Structural)]
pub enum BitContribution {
    BothSet,
    BothClear,
    Differ,
}

pub open spec fn contribution_of(a: bool, b: bool) -> BitContribution {
    if a && b {
        BitContribution::BothSet
    } else if a == b {
        BitContribution::BothClear
    } else {
        BitContribution::Differ
    }
}

/// Rank of a contribution: larger contributes more (2 for weight 1, 1 for
/// weight 1/2, 0 for weight 0).
pub open spec fn contribution_rank(c: BitContribution) -> int {
    match c {
        BitContribution::BothSet => 2,
        BitContribution::BothClear => 1,
        BitContribution::Differ => 0,
    }
}

/// Number of words needed for `n` bits.
pub open spec fn word_count(n: nat) -> nat {
    ((n + 63) / 64) as nat
}

/// `words` is the packed form of `bits`: one word per 64 bits, and bits past
/// the end clear.
pub open spec fn packs(words: Seq<u64>, bits: Seq<bool>) -> bool {
    &&& words.len() == word_count(bits.len())
    &&& forall|i: int|
        0 <= i < 64 * words.len() ==> #[trigger] packed_bit(words, i) == (i < bits.len()
            && bits[i])
}

/// Positions where two flag sequences differ.
pub open spec fn differ_at(a: Seq<bool>, b: Seq<bool>) -> spec_fn(int) -> bool {
    |i: int| a[i] != b[i]
}

/// Positions set in both sequences.
pub open spec fn both_at(a: Seq<bool>, b: Seq<bool>) -> spec_fn(int) -> bool {
    |i: int| a[i] && b[i]
}

/// Positions set in either sequence.
pub open spec fn either_at(a: Seq<bool>, b: Seq<bool>) -> spec_fn(int) -> bool {
    |i: int| a[i] || b[i]
}

/// Number of positions where two flag sequences differ.
pub open spec fn count_mismatches(a: Seq<bool>, b: Seq<bool>) -> nat {
    count_where(a.len(), differ_at(a, b))
}

/// Number of positions set in both sequences.
pub open spec fn count_both(a: Seq<bool>, b: Seq<bool>) -> nat {
    count_where(a.len(), both_at(a, b))
}

/// Number of positions set in either sequence.
pub open spec fn count_either(a: Seq<bool>, b: Seq<bool>) -> nat {
    count_where(a.len(), either_at(a, b))
}

/// Hamming similarity: the share of agreeing positions, `0` for empty vectors.
pub open spec fn hamming_score(a: Seq<bool>, b: Seq<bool>) -> Similarity {
    if a.len() == 0 {
        Similarity { numerator: 0, denominator: 1 }
    } else {
        Similarity {
            numerator: (a.len() - count_mismatches(a, b)) as usize,
            denominator: a.len() as usize,
        }
    }
}

/// Jaccard similarity: shared set positions over positions set in either,
/// `1` when neither has a set position.
pub open spec fn jaccard_score(a: Seq<bool>, b: Seq<bool>) -> Similarity {
    if count_either(a, b) == 0 {
        Similarity { numerator: 1, denominator: 1 }
    } else {
        Similarity {
            numerator: count_both(a, b) as usize,
            denominator: count_either(a, b) as usize,
        }
    }
}

/// Indices `0..n` whose contribution is `c`, ascending.
pub open spec fn positions_with(a: Seq<bool>, b: Seq<bool>, c: BitContribution, n: nat) -> Seq<
    (usize, BitContribution),
>
    decreases n,
{
    if n == 0 {
        Seq::empty()
    } else {
        let rest = positions_with(a, b, c, (n - 1) as nat);
        if contribution_of(a[n - 1], b[n - 1]) == c {
            rest.push(((n - 1) as usize, c))
        } else {
            rest
        }
    }
}

/// All positions ranked by contribution (largest first), ties by index.
pub open spec fn contribution_ranking(a: Seq<bool>, b: Seq<bool>) -> Seq<(usize, BitContribution)> {
    positions_with(a, b, BitContribution::BothSet, a.len()) + positions_with(
        a,
        b,
        BitContribution::BothClear,
        a.len(),
    ) + positions_with(a, b, BitContribution::Differ, a.len())
}

/// A binary feature vector packed 64 bits per word.
#[derive(Debug, PartialEq, Eq)]
pub struct BinaryVector {
    len: usize,
    words: Vec<u64>,
}

impl Clone for BinaryVector {
    fn clone(&self) -> (r: Self)
        ensures
            r@ == self@,
    {
        proof {
            use_type_invariant(self);
        }
        let words = self.words.clone();
        assert(words@ =~= self.words@);
        BinaryVector { len: self.len, words }
    }
}

impl View for BinaryVector {
    type V = Seq<bool>;

    closed spec fn view(&self) -> Seq<bool> {
        Seq::new(self.len as nat, |i: int| packed_bit(self.words@, i))
    }
}

pub open spec fn binary_similarity(
    metric: BinarySimilarityMetric,
    a: Seq<bool>,
    b: Seq<bool>,
) -> Similarity {
    match metric {
        BinarySimilarityMetric::Hamming => hamming_score(a, b),
        BinarySimilarityMetric::Jaccard => jaccard_score(a, b),
    }
}

spec fn combined_count(op: WordOp, a: Seq<bool>, b: Seq<bool>) -> nat {
    count_where(a.len(), |i: int| combine(op, a[i], b[i]))
}

/// Exact executable number of words for `n` bits.
pub fn words_for(n: usize) -> (r: usize)
    ensures
        r == word_count(n as nat),
{
    n / 64 + if n % 64 != 0 {
        1
    } else {
        0
    }
}

impl BinaryVector {
    #[verifier::type_invariant]
    spec fn well_formed(self) -> bool {
        &&& self.words.len() == word_count(self.len as nat)
        &&& forall|i: int|
            self.len <= i < 64 * self.words.len() ==> !#[trigger] packed_bit(self.words@, i)
    }

    proof fn lemma_packs(&self)
        requires
            self.well_formed(),
        ensures
            packs(self.words@, self@),
    {
        assert forall|i: int| 0 <= i < 64 * self.words@.len() implies #[trigger] packed_bit(
            self.words@,
            i,
        ) == (i < self@.len() && self@[i]) by {}
    }

    /// A vector's length fits in `usize`.
    pub proof fn lemma_view_len(&self)
        ensures
            self@.len() <= usize::MAX,
    {
    }

    /// Packs a sequence of flags: bit `i` is set exactly when `bits[i]` is.
    pub fn from_bits(bits: &[bool]) -> (r: Self)
        ensures
            r@ == bits@,
    {
        let n = bits.len();
        let count = words_for(n);
        let mut words: Vec<u64> = vec![0u64; count];
        proof {
            assert forall|p: int| 0 <= p < 64 * words.len() implies !#[trigger] packed_bit(
                words@,
                p,
            ) by {
                assert(p / 64 < words.len()) by (nonlinear_arith)
                    requires
                        0 <= p < 64 * words.len(),
                ;
                lemma_zero_bits((p % 64) as u64);
            }
        }
        let mut i: usize = 0;
        while i < n
            invariant
                n == bits@.len(),
                i <= n,
                words.len() == count,
                count == word_count(n as nat),
                forall|p: int|
                    0 <= p < 64 * words.len() ==> #[trigger] packed_bit(words@, p) == (p < i
                        && bits@[p]),
            decreases n - i,
        {
            if bits[i] {
                let k = i / 64;
                let j = (i % 64) as u64;
                assert(k < words.len()) by (nonlinear_arith)
                    requires
                        k == i / 64,
                        i < n,
                        words.len() == (n + 63) / 64,
                ;
                let ghost old_words = words@;
                let updated = words[k] | (1u64 << j);
                words.set(k, updated);
                proof {
                    assert forall|p: int| 0 <= p < 64 * words.len() implies #[trigger] packed_bit(
                        words@,
                        p,
                    ) == (p < i + 1 && bits@[p]) by {
                        assert(p / 64 < words.len()) by (nonlinear_arith)
                            requires
                                0 <= p < 64 * words.len(),
                        ;
                        lemma_bit_set_one(old_words[k as int], j, (p % 64) as u64);
                        lemma_fundamental_position(p, i as int);
                        assert(packed_bit(old_words, p) == (p < i && bits@[p]));
                        if p / 64 != k {
                            assert(words@[p / 64] == old_words[p / 64]);
                            assert(packed_bit(old_words, p) == packed_bit(words@, p));
                        } else {
                            assert(words@[p / 64] == updated);
                        }
                    }
                }
            } else {
                proof {
                    assert forall|p: int| 0 <= p < 64 * words.len() implies #[trigger] packed_bit(
                        words@,
                        p,
                    ) == (p < i + 1 && bits@[p]) by {}
                }
            }
            i = i + 1;
        }
        let r = BinaryVector { len: n, words };
        assert(r@ =~= bits@);
        r
    }

    /// Number of bits.
    pub fn len(&self) -> (r: usize)
        ensures
            r == self@.len(),
    {
        self.len
    }

    /// Whether the vector has no bit.
    pub fn is_empty(&self) -> (r: bool)
        ensures
            r == (self@.len() == 0),
    {
        self.len == 0
    }

    /// The packed words.
    pub fn words(&self) -> (r: &[u64])
        ensures
            packs(r@, self@),
    {
        proof {
            use_type_invariant(self);
            self.lemma_packs();
        }
        self.words.as_slice()
    }

    /// Bit `index`; `false` past the end.
    pub fn get(&self, index: usize) -> (r: bool)
        ensures
            r == (index < self@.len() && self@[index as int]),
    {
        proof {
            use_type_invariant(self);
        }
        if index >= self.len {
            false
        } else {
            let k = index / 64;
            let j = (index % 64) as u64;
            assert(k < self.words.len()) by (nonlinear_arith)
                requires
                    k == index / 64,
                    index < self.len,
                    self.words.len() == (self.len + 63) / 64,
            ;
            proof {
                lemma_bit_test(self.words@[k as int], j);
            }
            (self.words[k] & (1u64 << j)) != 0
        }
    }

    /// Checks that `other` has this vector's length.
    pub fn validate_other(&self, other: &Self) -> (r: Result<(), PancError>)
        ensures
            self@.len() == other@.len() ==> r is Ok,
            self@.len() != other@.len() ==> r == Err::<(), PancError>(
                PancError::DimensionMismatch {
                    expected: self@.len() as usize,
                    actual: other@.len() as usize,
                },
            ),
    {
        if self.len != other.len {
            Err(PancError::DimensionMismatch { expected: self.len, actual: other.len })
        } else {
            Ok(())
        }
    }

    /// Counts the positions where `op` holds of the two vectors' bits.
    fn count_combined(&self, other: &Self, op: WordOp) -> (r: usize)
        requires
            self@.len() == other@.len(),
        ensures
            r == combined_count(op, self@, other@),
    {
        proof {
            use_type_invariant(self);
            use_type_invariant(other);
        }
        let n = self.len;
        let nwords = self.words.len();
        let ghost a = self.words@;
        let ghost b = other.words@;
        let ghost f = |i: int| combine(op, packed_bit(a, i), packed_bit(b, i));
        proof {
            assert forall|i: int| n <= i < 64 * nwords implies !#[trigger] f(i) by {}
        }
        let mut total: usize = 0;
        let mut k: usize = 0;
        while k < nwords
            invariant
                k <= nwords,
                nwords == self.words.len(),
                nwords == other.words.len(),
                a == self.words@,
                b == other.words@,
                n == self.len,
                nwords == word_count(n as nat),
                forall|i: int| n <= i < 64 * nwords ==> !#[trigger] f(i),
                f == (|i: int| combine(op, packed_bit(a, i), packed_bit(b, i))),
                total == count_where(64 * k as nat, f),
                total <= n,
            decreases nwords - k,
        {
            let x = word_op(op, self.words[k], other.words[k]);
            let c = count_ones(x) as usize;
            proof {
                assert forall|j: u64| j < 64 implies #[trigger] bit_set(x, j) == f(
                    (64 * k as nat) + j,
                ) by {
                    lemma_word_position(k as int, j as int);
                }
                lemma_count_block(f, 64 * k as nat, x, 64);
                lemma_ones_below_bound(x, 64);
                if 64 * (k + 1) <= n {
                    lemma_count_where_bound(64 * (k + 1) as nat, f);
                } else {
                    lemma_count_where_tail(64 * (k + 1) as nat, n as nat, f);
                    lemma_count_where_bound(n as nat, f);
                }
            }
            total = total + c;
            k = k + 1;
        }
        proof {
            assert(64 * nwords >= n) by (nonlinear_arith)
                requires
                    nwords == (n + 63) / 64,
            ;
            lemma_count_where_tail(64 * nwords as nat, n as nat, f);
            lemma_count_where_ext(
                n as nat,
                f,
                |i: int| combine(op, self@[i], other@[i]),
            );
        }
        total
    }

    /// Hamming similarity with another vector of the same length.
    pub fn hamming_similarity(&self, other: &Self) -> (r: Result<Similarity, PancError>)
        ensures
            self@.len() == other@.len() ==> r == Ok::<Similarity, PancError>(
                hamming_score(self@, other@),
            ),
            self@.len() != other@.len() ==> r == Err::<Similarity, PancError>(
                PancError::DimensionMismatch {
                    expected: self@.len() as usize,
                    actual: other@.len() as usize,
                },
            ),
    {
        self.validate_other(other)?;
        if self.len == 0 {
            return Ok(Similarity { numerator: 0, denominator: 1 });
        }
        let mismatches = self.count_combined(other, WordOp::Xor);
        proof {
            lemma_count_where_bound(self@.len(), |i: int| combine(WordOp::Xor, self@[i], other@[i]));
            lemma_count_where_ext(
                self@.len(),
                |i: int| combine(WordOp::Xor, self@[i], other@[i]),
                differ_at(self@, other@),
            );
        }
        Ok(Similarity { numerator: self.len - mismatches, denominator: self.len })
    }

    /// Jaccard similarity with another vector of the same length.
    pub fn jaccard_similarity(&self, other: &Self) -> (r: Result<Similarity, PancError>)
        ensures
            self@.len() == other@.len() ==> r == Ok::<Similarity, PancError>(
                jaccard_score(self@, other@),
            ),
            self@.len() != other@.len() ==> r == Err::<Similarity, PancError>(
                PancError::DimensionMismatch {
                    expected: self@.len() as usize,
                    actual: other@.len() as usize,
                },
            ),
    {
        self.validate_other(other)?;
        let intersection = self.count_combined(other, WordOp::And);
        let union = self.count_combined(other, WordOp::Or);
        proof {
            lemma_count_where_ext(
                self@.len(),
                |i: int| combine(WordOp::And, self@[i], other@[i]),
                both_at(self@, other@),
            );
            lemma_count_where_ext(
                self@.len(),
                |i: int| combine(WordOp::Or, self@[i], other@[i]),
                either_at(self@, other@),
            );
        }
        if union == 0 {
            Ok(Similarity { numerator: 1, denominator: 1 })
        } else {
            Ok(Similarity { numerator: intersection, denominator: union })
        }
    }
}

/// The first `n` items of `s`, or all of them when there are fewer.
pub open spec fn take_at_most<T>(s: Seq<T>, n: nat) -> Seq<T> {
    if n < s.len() {
        s.take(n as int)
    } else {
        s
    }
}

fn contribution(a: bool, b: bool) -> (r: BitContribution)
    ensures
        r == contribution_of(a, b),
{
    if a && b {
        BitContribution::BothSet
    } else if a == b {
        BitContribution::BothClear
    } else {
        BitContribution::Differ
    }
}

impl BinaryVector {
    /// Appends, in ascending order, the positions whose contribution is `c`.
    fn push_positions(
        &self,
        other: &Self,
        c: BitContribution,
        out: &mut Vec<(usize, BitContribution)>,
    )
        requires
            self@.len() == other@.len(),
        ensures
            final(out)@ == old(out)@ + positions_with(self@, other@, c, self@.len()),
    {
        let n = self.len();
        let mut i: usize = 0;
        while i < n
            invariant
                n == self@.len(),
                self@.len() == other@.len(),
                i <= n,
                out@ == old(out)@ + positions_with(self@, other@, c, i as nat),
            decreases n - i,
        {
            let here = contribution(self.get(i), other.get(i));
            if here == c {
                out.push((i, c));
                assert(out@ =~= old(out)@ + positions_with(self@, other@, c, (i + 1) as nat));
            }
            i = i + 1;
        }
    }

    /// The positions that contribute most to the agreement with `other`:
    /// positions set in both first, then positions clear in both, then
    /// differing positions, each group by ascending index; at most `top_bits`
    /// of them.
    pub fn contributing_bits(&self, other: &Self, top_bits: usize) -> (r: Result<
        Vec<(usize, BitContribution)>,
        PancError,
    >)
        ensures
            self@.len() == other@.len() ==> r is Ok && r->Ok_0@ == take_at_most(
                contribution_ranking(self@, other@),
                top_bits as nat,
            ),
            self@.len() != other@.len() ==> r is Err && r->Err_0 == (PancError::DimensionMismatch {
                expected: self@.len() as usize,
                actual: other@.len() as usize,
            }),
    {
        if self.len != other.len {
            return Err(PancError::DimensionMismatch { expected: self.len, actual: other.len });
        }
        let mut bits: Vec<(usize, BitContribution)> = Vec::new();
        self.push_positions(other, BitContribution::BothSet, &mut bits);
        self.push_positions(other, BitContribution::BothClear, &mut bits);
        self.push_positions(other, BitContribution::Differ, &mut bits);
        assert(bits@ =~= contribution_ranking(self@, other@));
        let ghost full = bits@;
        bits.truncate(top_bits);
        assert(bits@ =~= take_at_most(full, top_bits as nat));
        Ok(bits)
    }
}

proof fn lemma_fundamental_position(p: int, i: int)
    requires
        0 <= p,
        0 <= i,
    ensures
        (p == i) <==> (p / 64 == i / 64 && p % 64 == i % 64),
{
    assert((p == i) <==> (p / 64 == i / 64 && p % 64 == i % 64)) by (nonlinear_arith)
        requires
            0 <= p,
            0 <= i,
    ;
}

} // verus!
