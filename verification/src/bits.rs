//! Bit-level facts about `u64` words: which bits are set, how many are set,
//! and how a run of packed words relates to a flat sequence of flags.
use vstd::prelude::*;

verus! {

/// Whether bit `j` (counting from the least significant bit) of `w` is set.
pub open spec fn bit_set(w: u64, j: u64) -> bool {
    (w >> j) & 1u64 == 1u64
}

/// Number of set bits among the lowest `n` bits of `w`.
pub open spec fn ones_below(w: u64, n: nat) -> nat
    decreases n,
{
    if n == 0 {
        0
    } else {
        ones_below(w, (n - 1) as nat) + if bit_set(w, (n - 1) as u64) {
            1nat
        } else {
            0nat
        }
    }
}

/// Number of set bits of a word.
pub open spec fn popcount(w: u64) -> nat {
    ones_below(w, 64)
}

/// The number of set bits of a word, bit by bit.
pub fn count_ones(w: u64) -> (r: u32)
    ensures
        r as nat == popcount(w),
{
    let mut count: u32 = 0;
    let mut b: u64 = 0;
    while b < 64
        invariant
            b <= 64,
            count as nat == ones_below(w, b as nat),
            count <= b,
        decreases 64 - b,
    {
        if (w >> b) & 1u64 == 1u64 {
            count = count + 1;
        }
        b = b + 1;
    }
    count
}

/// Number of indices `i` in `0..n` for which `f(i)` holds.
pub open spec fn count_where(n: nat, f: spec_fn(int) -> bool) -> nat
    decreases n,
{
    if n == 0 {
        0
    } else {
        count_where((n - 1) as nat, f) + if f(n - 1) {
            1nat
        } else {
            0nat
        }
    }
}

/// Flag `i` of a packed word sequence: bit `i % 64` of word `i / 64`.
pub open spec fn packed_bit(words: Seq<u64>, i: int) -> bool {
    bit_set(words[i / 64], (i % 64) as u64)
}

pub proof fn lemma_ones_below_bound(w: u64, n: nat)
    ensures
        ones_below(w, n) <= n,
    decreases n,
{
    if n > 0 {
        lemma_ones_below_bound(w, (n - 1) as nat);
    }
}

pub proof fn lemma_count_where_bound(n: nat, f: spec_fn(int) -> bool)
    ensures
        count_where(n, f) <= n,
    decreases n,
{
    if n > 0 {
        lemma_count_where_bound((n - 1) as nat, f);
    }
}

/// Counting agrees for predicates that agree below `n`.
pub proof fn lemma_count_where_ext(n: nat, f: spec_fn(int) -> bool, g: spec_fn(int) -> bool)
    requires
        forall|i: int| 0 <= i < n ==> #[trigger] f(i) == g(i),
    ensures
        count_where(n, f) == count_where(n, g),
    decreases n,
{
    if n > 0 {
        lemma_count_where_ext((n - 1) as nat, f, g);
    }
}

/// Counting past a point after which the predicate never holds adds nothing.
pub proof fn lemma_count_where_tail(m: nat, n: nat, f: spec_fn(int) -> bool)
    requires
        n <= m,
        forall|i: int| n <= i < m ==> !#[trigger] f(i),
    ensures
        count_where(m, f) == count_where(n, f),
    decreases m,
{
    if m > n {
        lemma_count_where_tail((m - 1) as nat, n, f);
    }
}

/// Counting is monotone in the bound.
pub proof fn lemma_count_where_mono(m: nat, n: nat, f: spec_fn(int) -> bool)
    requires
        n <= m,
    ensures
        count_where(n, f) <= count_where(m, f),
        count_where(m, f) <= count_where(n, f) + (m - n),
    decreases m,
{
    if m > n {
        lemma_count_where_mono((m - 1) as nat, n, f);
    }
}

/// Counting a predicate that implies another gives no more.
pub proof fn lemma_count_where_implies(n: nat, f: spec_fn(int) -> bool, g: spec_fn(int) -> bool)
    requires
        forall|i: int| 0 <= i < n && #[trigger] f(i) ==> g(i),
    ensures
        count_where(n, f) <= count_where(n, g),
    decreases n,
{
    if n > 0 {
        lemma_count_where_implies((n - 1) as nat, f, g);
    }
}

/// The position `base + j` (with `base` a multiple of 64 and `j < 64`) lies in
/// word `base / 64` at bit `j`.
pub proof fn lemma_word_position(k: int, j: int)
    requires
        0 <= k,
        0 <= j < 64,
    ensures
        (64 * k + j) / 64 == k,
        (64 * k + j) % 64 == j,
{
    assert((64 * k + j) / 64 == k && (64 * k + j) % 64 == j) by (nonlinear_arith)
        requires
            0 <= k,
            0 <= j < 64,
    ;
}

/// Counting the flags of one whole word adds that word's ones.
pub proof fn lemma_count_block(f: spec_fn(int) -> bool, base: nat, x: u64, n: nat)
    requires
        n <= 64,
        forall|j: u64| j < 64 ==> #[trigger] bit_set(x, j) == f(base + j),
    ensures
        count_where(base + n, f) == count_where(base, f) + ones_below(x, n),
    decreases n,
{
    if n > 0 {
        lemma_count_block(f, base, x, (n - 1) as nat);
        let j = (n - 1) as u64;
        assert(bit_set(x, j) == f(base + j));
        assert((base + n - 1) as int == base + j);
    }
}

pub proof fn lemma_bit_xor(a: u64, b: u64, j: u64)
    requires
        j < 64,
    ensures
        bit_set(a ^ b, j) == (bit_set(a, j) != bit_set(b, j)),
{
    assert(((a ^ b) >> j) & 1u64 == 1u64 <==> (((a >> j) & 1u64 == 1u64) != ((b >> j) & 1u64
        == 1u64))) by (bit_vector)
        requires
            j < 64,
    ;
}

pub proof fn lemma_bit_and(a: u64, b: u64, j: u64)
    requires
        j < 64,
    ensures
        bit_set(a & b, j) == (bit_set(a, j) && bit_set(b, j)),
{
    assert(((a & b) >> j) & 1u64 == 1u64 <==> (((a >> j) & 1u64 == 1u64) && ((b >> j) & 1u64
        == 1u64))) by (bit_vector)
        requires
            j < 64,
    ;
}

pub proof fn lemma_bit_or(a: u64, b: u64, j: u64)
    requires
        j < 64,
    ensures
        bit_set(a | b, j) == (bit_set(a, j) || bit_set(b, j)),
{
    assert(((a | b) >> j) & 1u64 == 1u64 <==> (((a >> j) & 1u64 == 1u64) || ((b >> j) & 1u64
        == 1u64))) by (bit_vector)
        requires
            j < 64,
    ;
}

/// Setting bit `j` sets exactly that bit.
pub proof fn lemma_bit_set_one(w: u64, j: u64, t: u64)
    requires
        j < 64,
        t < 64,
    ensures
        bit_set(w | (1u64 << j), t) == (bit_set(w, t) || t == j),
{
    assert(((w | (1u64 << j)) >> t) & 1u64 == 1u64 <==> (((w >> t) & 1u64 == 1u64) || t == j))
        by (bit_vector)
        requires
            j < 64,
            t < 64,
    ;
}

/// Testing a word against a one-bit mask tests that bit.
pub proof fn lemma_bit_test(w: u64, j: u64)
    requires
        j < 64,
    ensures
        (w & (1u64 << j) != 0u64) == bit_set(w, j),
{
    assert((w & (1u64 << j) != 0u64) == ((w >> j) & 1u64 == 1u64)) by (bit_vector)
        requires
            j < 64,
    ;
}

/// The zero word has no bit set.
pub proof fn lemma_zero_bits(j: u64)
    requires
        j < 64,
    ensures
        !bit_set(0u64, j),
{
    assert((0u64 >> j) & 1u64 != 1u64) by (bit_vector);
}

/// Which word operation a count runs over.
#[derive(Clone, Copy, PartialEq, Eq, Structural)]
pub enum WordOp {
    Xor,
    And,
    Or,
}

pub open spec fn combine(op: WordOp, a: bool, b: bool) -> bool {
    match op {
        WordOp::Xor => a != b,
        WordOp::And => a && b,
        WordOp::Or => a || b,
    }
}

pub fn word_op(op: WordOp, a: u64, b: u64) -> (r: u64)
    ensures
        forall|j: u64| j < 64 ==> #[trigger] bit_set(r, j) == combine(op, bit_set(a, j), bit_set(b, j)),
{
    let r = match op {
        WordOp::Xor => a ^ b,
        WordOp::And => a & b,
        WordOp::Or => a | b,
    };
    proof {
        assert forall|j: u64| j < 64 implies #[trigger] bit_set(r, j) == combine(
            op,
            bit_set(a, j),
            bit_set(b, j),
        ) by {
            lemma_bit_xor(a, b, j);
            lemma_bit_and(a, b, j);
            lemma_bit_or(a, b, j);
        }
    }
    r
}

} // verus!
