//! Feature-block masks: a descriptor is split into sixteen consecutive blocks,
//! and a 16-bit mask says which blocks take part in a comparison.
use vstd::prelude::*;
use vstd::string::StringExecFns;

use crate::binary::{packs, similarity_wf, word_count, words_for, BinaryVector, Similarity};
use crate::bits::{
    bit_set, combine, count_ones, count_where, lemma_bit_and, lemma_bit_set_one, lemma_count_block,
    lemma_count_where_bound, lemma_count_where_ext, lemma_count_where_implies, lemma_ones_below_bound,
    lemma_word_position, lemma_zero_bits, packed_bit, word_op, WordOp,
};
use crate::draws::{draw_below, draw_i32_between, draw_ratio, Draw, SearchRng};
use crate::text::{hex_char, hex_digit_str, string_of};

verus! {

/// Number of blocks a descriptor is split into.
pub const FEATURE_BLOCK_COUNT: usize = 16;

/// Whether bit `j` of a 32-bit mask is set.
pub open spec fn mask_bit(w: u32, j: u32) -> bool {
    (w >> j) & 1u32 == 1u32
}

/// The mask with every block active.
pub open spec fn full_mask() -> u32 {
    0xffffu32
}

/// A mask restricted to the sixteen blocks, with the empty mask read as "all
/// blocks".
pub open spec fn normalized(mask: u32) -> u32 {
    if mask & 0xffffu32 == 0 {
        0xffffu32
    } else {
        mask & 0xffffu32
    }
}

/// A mask that names at least one block and no bit past the sixteenth.
pub open spec fn valid_mask(mask: u32) -> bool {
    mask != 0 && mask & !0xffffu32 == 0
}

/// The mask with every block active.
pub fn all_blocks_mask() -> (r: u32)
    ensures
        r == full_mask(),
{
    assert((1u32 << 16u32) - 1 == 0xffffu32) by (bit_vector);
    (1u32 << 16u32) - 1
}

/// The block mask a genome has when none is given: every block.
pub fn default_active_blocks() -> (r: u32)
    ensures
        r == full_mask(),
{
    all_blocks_mask()
}

/// Drops bits past the sixteenth block; an empty result means every block.
pub fn normalize_block_mask(mask: u32) -> (r: u32)
    ensures
        r == normalized(mask),
        valid_mask(r),
{
    let masked = mask & all_blocks_mask();
    proof {
        lemma_normalized_valid(mask);
    }
    if masked == 0 {
        all_blocks_mask()
    } else {
        masked
    }
}

/// A normalized mask is valid.
pub proof fn lemma_normalized_valid(mask: u32)
    ensures
        valid_mask(normalized(mask)),
{
    assert(mask & 0xffffu32 != 0 ==> (mask & 0xffffu32) & !0xffffu32 == 0) by (bit_vector);
    assert(0xffffu32 & !0xffffu32 == 0) by (bit_vector);
}

/// The full mask is valid.
pub proof fn lemma_full_mask_valid()
    ensures
        valid_mask(full_mask()),
{
    assert(0xffffu32 & !0xffffu32 == 0) by (bit_vector);
}

/// Normalizing leaves a valid mask unchanged, so normalizing twice is
/// normalizing once.
pub proof fn lemma_normalize_idempotent(mask: u32)
    ensures
        valid_mask(mask) ==> normalized(mask) == mask,
        normalized(normalized(mask)) == normalized(mask),
{
    assert(mask != 0 && mask & !0xffffu32 == 0 ==> mask & 0xffffu32 == mask) by (bit_vector);
    lemma_normalized_valid(mask);
    let n = normalized(mask);
    assert(n != 0 && n & !0xffffu32 == 0 ==> n & 0xffffu32 == n) by (bit_vector);
}

/// Bit-level reading of a normalized mask: block `b` is active exactly when it
/// is named by the mask, or when the mask names no block at all.
pub proof fn lemma_normalized_bits(mask: u32, b: u32)
    requires
        b < 32,
    ensures
        mask_bit(normalized(mask), b) == (b < 16 && (mask & 0xffffu32 == 0 || mask_bit(mask, b))),
{
    assert(((mask & 0xffffu32) >> b) & 1u32 == 1u32 <==> (b < 16 && (mask >> b) & 1u32 == 1u32))
        by (bit_vector)
        requires
            b < 32,
    ;
    assert((0xffffu32 >> b) & 1u32 == 1u32 <==> b < 16) by (bit_vector)
        requires
            b < 32,
    ;
}


/// The mask whose bit `b` is set exactly when `flags[b]` holds, for `b < n`.
pub open spec fn flags_mask(flags: Seq<bool>, n: nat) -> u32
    decreases n,
{
    if n == 0 {
        0u32
    } else {
        flags_mask(flags, (n - 1) as nat) | if flags[n - 1] {
            1u32 << ((n - 1) as u32)
        } else {
            0u32
        }
    }
}

/// `mask` with the block bits of `toggles[0..n]` flipped in turn.
pub open spec fn toggled(mask: u32, toggles: Seq<usize>, n: nat) -> u32
    decreases n,
{
    if n == 0 {
        mask
    } else {
        toggled(mask, toggles, (n - 1) as nat) ^ (1u32 << (toggles[n - 1] as u32))
    }
}

/// The block choices of a crossover: block `b` comes from `left` when
/// `take_left[b]` holds, else from `right`.
pub open spec fn crossover_choices(left: u32, right: u32, take_left: Seq<bool>) -> Seq<bool> {
    Seq::new(
        16,
        |b: int|
            if take_left[b] {
                mask_bit(left, b as u32)
            } else {
                mask_bit(right, b as u32)
            },
    )
}

proof fn lemma_set_bit_step(m: u32, b: u32, j: u32)
    requires
        b < 32,
        j < 32,
    ensures
        mask_bit(m | (1u32 << b), j) == (mask_bit(m, j) || j == b),
        mask_bit(m | 0u32, j) == mask_bit(m, j),
{
    assert(((m | (1u32 << b)) >> j) & 1u32 == 1u32 <==> (((m >> j) & 1u32 == 1u32) || j == b))
        by (bit_vector)
        requires
            b < 32,
            j < 32,
    ;
    assert(((m | 0u32) >> j) & 1u32 == 1u32 <==> ((m >> j) & 1u32 == 1u32)) by (bit_vector);
}

/// Bit `j` of `flags_mask(flags, n)` is `flags[j]` for `j < n`, and clear
/// from `n` on.
pub proof fn lemma_flags_mask_bits(flags: Seq<bool>, n: nat, j: u32)
    requires
        n <= 32,
        j < 32,
    ensures
        mask_bit(flags_mask(flags, n), j) == (j < n && flags[j as int]),
    decreases n,
{
    if n == 0 {
        assert((0u32 >> j) & 1u32 != 1u32) by (bit_vector);
    } else {
        lemma_flags_mask_bits(flags, (n - 1) as nat, j);
        lemma_set_bit_step(flags_mask(flags, (n - 1) as nat), (n - 1) as u32, j);
    }
}

/// Only the lowest `n` bits of `flags_mask(flags, n)` can be set.
pub proof fn lemma_flags_mask_width(flags: Seq<bool>, n: nat)
    requires
        n <= 16,
    ensures
        flags_mask(flags, n) & !0xffffu32 == 0,
    decreases n,
{
    if n == 0 {
        assert(0u32 & !0xffffu32 == 0) by (bit_vector);
    } else {
        lemma_flags_mask_width(flags, (n - 1) as nat);
        let prev = flags_mask(flags, (n - 1) as nat);
        let b = (n - 1) as u32;
        assert(prev & !0xffffu32 == 0 && b < 16 ==> (prev | (1u32 << b)) & !0xffffu32 == 0)
            by (bit_vector);
        assert(prev & !0xffffu32 == 0 ==> (prev | 0u32) & !0xffffu32 == 0) by (bit_vector);
    }
}

/// Combines two parents block by block: block `b` is taken from `left` when
/// `take_left[b]` holds, else from `right`; an empty result means every block.
pub fn crossover_from_choices(left: u32, right: u32, take_left: &[bool]) -> (r: u32)
    requires
        take_left@.len() == FEATURE_BLOCK_COUNT,
    ensures
        r == normalized(flags_mask(crossover_choices(left, right, take_left@), 16)),
        valid_mask(r),
{
    let ghost chosen = crossover_choices(left, right, take_left@);
    let mut mask: u32 = 0;
    let mut block: u32 = 0;
    while block < 16
        invariant
            block <= 16,
            take_left@.len() == 16,
            chosen == crossover_choices(left, right, take_left@),
            mask == flags_mask(chosen, block as nat),
        decreases 16 - block,
    {
        let bit = 1u32 << block;
        let source = if take_left[block as usize] {
            left
        } else {
            right
        };
        proof {
            assert((source & (1u32 << block)) == if (source >> block) & 1u32 == 1u32 {
                1u32 << block
            } else {
                0u32
            }) by (bit_vector)
                requires
                    block < 16,
            ;
        }
        mask = mask | (source & bit);
        block = block + 1;
    }
    normalize_block_mask(mask)
}

/// A fresh mask: every block when `all` holds, otherwise the blocks `b` with
/// `picks[b]` (every block again if none is picked).
pub fn block_mask_from_picks(all: bool, picks: &[bool]) -> (r: u32)
    requires
        picks@.len() == FEATURE_BLOCK_COUNT,
    ensures
        all ==> r == full_mask(),
        !all ==> r == normalized(flags_mask(picks@, 16)),
        valid_mask(r),
{
    if all {
        proof {
            lemma_full_mask_valid();
        }
        return all_blocks_mask();
    }
    let mut mask: u32 = 0;
    let mut block: u32 = 0;
    while block < 16
        invariant
            block <= 16,
            picks@.len() == 16,
            mask == flags_mask(picks@, block as nat),
        decreases 16 - block,
    {
        if picks[block as usize] {
            mask = mask | (1u32 << block);
        } else {
            mask = mask | 0u32;
        }
        block = block + 1;
    }
    normalize_block_mask(mask)
}

/// Mutates a mask: every block when `reset_all` holds, otherwise the blocks
/// in `toggles` flipped in turn; the result is normalized.
pub fn mutation_from_toggles(mask: &mut u32, reset_all: bool, toggles: &[usize])
    requires
        forall|t: int| 0 <= t < toggles@.len() ==> #[trigger] toggles@[t] < FEATURE_BLOCK_COUNT,
    ensures
        reset_all ==> *final(mask) == full_mask(),
        !reset_all ==> *final(mask) == normalized(toggled(*old(mask), toggles@, toggles@.len())),
        valid_mask(*final(mask)),
{
    if reset_all {
        proof {
            lemma_full_mask_valid();
        }
        *mask = all_blocks_mask();
        return;
    }
    let mut i: usize = 0;
    while i < toggles.len()
        invariant
            i <= toggles@.len(),
            forall|t: int| 0 <= t < toggles@.len() ==> #[trigger] toggles@[t] < FEATURE_BLOCK_COUNT,
            *mask == toggled(*old(mask), toggles@, i as nat),
        decreases toggles@.len() - i,
    {
        let block = toggles[i] as u32;
        *mask = *mask ^ (1u32 << block);
        i = i + 1;
    }
    *mask = normalize_block_mask(*mask);
}


/// The draws of a fresh mask: one in four for every block, then, unless
/// that came out true, a 13-in-20 draw for each block in turn.
pub open spec fn fresh_mask_draws(all: bool, picks: Seq<bool>) -> Seq<Draw> {
    seq![Draw::Ratio(1, 4, all)] + if all {
        Seq::empty()
    } else {
        Seq::new(16, |b: int| Draw::Ratio(13, 20, picks[b]))
    }
}

/// The draws of a crossover: an even draw for each block in turn.
pub open spec fn crossover_draws(take_left: Seq<bool>) -> Seq<Draw> {
    Seq::new(16, |b: int| Draw::Ratio(1, 2, take_left[b]))
}

/// The draws of a mutation: 3 in 20 for every block, then, unless that came
/// out true, the number of flips from 1 to 3 and a block below 16 for each.
pub open spec fn mutation_draws(reset: bool, count: i32, toggles: Seq<usize>) -> Seq<Draw> {
    seq![Draw::Ratio(3, 20, reset)] + if reset {
        Seq::empty()
    } else {
        seq![Draw::Between(1, 3, count)] + toggles.map_values(|t: usize| Draw::Below(16, t))
    }
}

/// A fresh random mask: with a chance of one in four every block, otherwise
/// each block kept with a chance of 13 in 20 (every block when none is).
pub fn random_block_mask(rng: &mut SearchRng) -> (r: u32)
    ensures
        valid_mask(r),
        exists|all: bool, picks: Seq<bool>|
            #![trigger fresh_mask_draws(all, picks)]
            picks.len() == 16 && final(rng).draws@ == old(rng).draws@ + fresh_mask_draws(all, picks)
                && r == (if all {
                full_mask()
            } else {
                normalized(flags_mask(picks, 16))
            }),
{
    let ghost start = rng.draws@;
    let all = draw_ratio(rng, 1, 4);
    let mut picks: Vec<bool> = Vec::new();
    let mut block: usize = 0;
    while block < FEATURE_BLOCK_COUNT
        invariant
            block <= FEATURE_BLOCK_COUNT,
            picks@.len() == block,
            all ==> rng.draws@ == start.push(Draw::Ratio(1, 4, all)),
            !all ==> rng.draws@ == start.push(Draw::Ratio(1, 4, all)) + Seq::new(
                block as nat,
                |b: int| Draw::Ratio(13, 20, picks@[b]),
            ),
        decreases FEATURE_BLOCK_COUNT - block,
    {
        let ghost before = rng.draws@;
        let keep = if all {
            false
        } else {
            draw_ratio(rng, 13, 20)
        };
        picks.push(keep);
        block = block + 1;
        assert(!all ==> rng.draws@ =~= start.push(Draw::Ratio(1, 4, all)) + Seq::new(
            block as nat,
            |b: int| Draw::Ratio(13, 20, picks@[b]),
        ));
    }
    let r = block_mask_from_picks(all, picks.as_slice());
    assert(rng.draws@ =~= start + fresh_mask_draws(all, picks@));
    r
}

/// Combines two parents block by block, each block taken from either parent
/// with even chance; an empty result means every block.
pub fn crossover_block_mask(left: u32, right: u32, rng: &mut SearchRng) -> (r: u32)
    ensures
        valid_mask(r),
        exists|take_left: Seq<bool>|
            #![trigger crossover_draws(take_left)]
            take_left.len() == 16 && final(rng).draws@ == old(rng).draws@ + crossover_draws(take_left)
                && r == normalized(flags_mask(crossover_choices(left, right, take_left), 16)),
{
    let ghost start = rng.draws@;
    let mut take_left: Vec<bool> = Vec::new();
    let mut block: usize = 0;
    while block < FEATURE_BLOCK_COUNT
        invariant
            block <= FEATURE_BLOCK_COUNT,
            take_left@.len() == block,
            rng.draws@ == start + Seq::new(block as nat, |b: int| Draw::Ratio(1, 2, take_left@[b])),
        decreases FEATURE_BLOCK_COUNT - block,
    {
        let t = draw_ratio(rng, 1, 2);
        take_left.push(t);
        block = block + 1;
        assert(rng.draws@ =~= start + Seq::new(block as nat, |b: int| Draw::Ratio(1, 2, take_left@[b])));
    }
    let r = crossover_from_choices(left, right, take_left.as_slice());
    assert(rng.draws@ =~= start + crossover_draws(take_left@));
    r
}

/// Mutates a mask: with a chance of 3 in 20 every block, otherwise one to
/// three randomly drawn blocks flipped in turn; the result is normalized.
pub fn mutate_block_mask(mask: &mut u32, rng: &mut SearchRng)
    ensures
        valid_mask(*final(mask)),
        exists|reset: bool, count: i32, toggles: Seq<usize>|
            #![trigger mutation_draws(reset, count, toggles)]
            final(rng).draws@ == old(rng).draws@ + mutation_draws(reset, count, toggles) && (reset
                ==> *final(mask) == full_mask()) && (!reset ==> {
                &&& 1 <= count <= 3
                &&& toggles.len() == count
                &&& forall|t: int| 0 <= t < toggles.len() ==> #[trigger] toggles[t] < FEATURE_BLOCK_COUNT
                &&& *final(mask) == normalized(toggled(*old(mask), toggles, toggles.len()))
            }),
{
    let ghost start = rng.draws@;
    if draw_ratio(rng, 3, 20) {
        mutation_from_toggles(mask, true, &[]);
        assert(rng.draws@ =~= start + mutation_draws(true, 0, Seq::empty()));
        return;
    }
    let count = draw_i32_between(rng, 1, 3);
    let mut toggles: Vec<usize> = Vec::new();
    let mut k: i32 = 0;
    assert(rng.draws@ =~= start + seq![Draw::Ratio(3, 20, false), Draw::Between(1, 3, count)]
        + toggles@.map_values(|t: usize| Draw::Below(16, t)));
    while k < count
        invariant
            0 <= k <= count <= 3,
            1 <= count,
            toggles@.len() == k,
            forall|t: int| 0 <= t < toggles@.len() ==> #[trigger] toggles@[t] < FEATURE_BLOCK_COUNT,
            rng.draws@ == start + seq![Draw::Ratio(3, 20, false), Draw::Between(1, 3, count)]
                + toggles@.map_values(|t: usize| Draw::Below(16, t)),
        decreases count - k,
    {
        let t = draw_below(rng, FEATURE_BLOCK_COUNT);
        toggles.push(t);
        k = k + 1;
        assert(rng.draws@ =~= start + seq![Draw::Ratio(3, 20, false), Draw::Between(1, 3, count)]
            + toggles@.map_values(|t: usize| Draw::Below(16, t)));
    }
    let ghost old_mask = *mask;
    mutation_from_toggles(mask, false, toggles.as_slice());
    assert(rng.draws@ =~= start + mutation_draws(false, count, toggles@));
    assert(*mask == normalized(toggled(old_mask, toggles@, toggles@.len())));
}

/// `0x` followed by the four lower-case hexadecimal digits of the normalized
/// mask.
pub open spec fn block_mask_text(mask: u32) -> Seq<char> {
    let n = normalized(mask);
    seq![
        '0',
        'x',
        hex_char((n >> 12u32) & 15u32),
        hex_char((n >> 8u32) & 15u32),
        hex_char((n >> 4u32) & 15u32),
        hex_char(n & 15u32),
    ]
}

/// Renders the normalized mask as `0x` and four hexadecimal digits.
pub fn format_block_mask(mask: u32) -> (r: String)
    ensures
        r@ == block_mask_text(mask),
{
    let n = normalize_block_mask(mask);
    proof {
        reveal_strlit("0x");
    }
    let mut text = string_of("0x");
    let mut shift: u32 = 16;
    while shift > 0
        invariant
            shift <= 16,
            shift % 4 == 0,
            n == normalized(mask),
            text@.len() == 2 + (16 - shift) / 4,
            text@[0] == '0',
            text@[1] == 'x',
            shift <= 12 ==> text@[2] == hex_char((n >> 12u32) & 15u32),
            shift <= 8 ==> text@[3] == hex_char((n >> 8u32) & 15u32),
            shift <= 4 ==> text@[4] == hex_char((n >> 4u32) & 15u32),
            shift == 0 ==> text@[5] == hex_char(n & 15u32),
        decreases shift,
    {
        shift = shift - 4;
        let digit = (n >> shift) & 15;
        assert(digit < 16) by (bit_vector)
            requires
                digit == (n >> shift) & 15u32,
        ;
        if shift == 0 {
            assert(n >> 0u32 == n) by (bit_vector);
        }
        text.append(hex_digit_str(digit));
    }
    assert(text@ =~= block_mask_text(mask));
    text
}


/// First position of block `b` in a descriptor of `len` features.
pub open spec fn block_start(len: nat, b: nat) -> nat {
    len * b / 16
}

/// Position `p` lies in block `b`.
pub open spec fn in_block(len: nat, b: nat, p: int) -> bool {
    block_start(len, b) <= p < block_start(len, b + 1)
}

/// Position `p` lies in one of the blocks `0..nb` that `active` names.
pub open spec fn covered_by(len: nat, active: u32, p: int, nb: nat) -> bool
    decreases nb,
{
    nb > 0 && (covered_by(len, active, p, (nb - 1) as nat) || (mask_bit(active, (nb - 1) as u32)
        && in_block(len, (nb - 1) as nat, p)))
}

/// Position `p` of a `len`-feature descriptor takes part in a comparison
/// under `active_blocks`.
pub open spec fn compared_position(len: nat, active_blocks: u32, p: int) -> bool {
    0 <= p < len && covered_by(len, normalized(active_blocks), p, 16)
}

pub open spec fn compared_at(len: nat, active_blocks: u32) -> spec_fn(int) -> bool {
    |p: int| compared_position(len, active_blocks, p)
}

proof fn lemma_block_start_bounds(len: nat, b: nat)
    requires
        b < 16,
    ensures
        block_start(len, b) <= block_start(len, b + 1) <= len,
{
    assert(len * b / 16 <= len * (b + 1) / 16 <= len) by (nonlinear_arith)
        requires
            b < 16,
    ;
}

pub proof fn lemma_covered_below_len(len: nat, active: u32, p: int, nb: nat)
    requires
        nb <= 16,
        covered_by(len, active, p, nb),
    ensures
        0 <= p < len,
    decreases nb,
{
    if covered_by(len, active, p, (nb - 1) as nat) {
        lemma_covered_below_len(len, active, p, (nb - 1) as nat);
    } else {
        lemma_block_start_bounds(len, (nb - 1) as nat);
    }
}

/// The blocks tile the descriptor: every position below `block_start(len, n)`
/// lies in one of the blocks `0..n`.
proof fn lemma_blocks_tile(len: nat, p: int, n: nat)
    requires
        n <= 16,
        0 <= p < block_start(len, n),
    ensures
        covered_by(len, 0xffffu32, p, n),
    decreases n,
{
    if n > 0 {
        assert(mask_bit(0xffffu32, (n - 1) as u32)) by {
            let b = (n - 1) as u32;
            assert((0xffffu32 >> b) & 1u32 == 1u32) by (bit_vector)
                requires
                    b < 16,
            ;
        }
        if p < block_start(len, (n - 1) as nat) {
            lemma_blocks_tile(len, p, (n - 1) as nat);
        }
    } else {
        assert(block_start(len, 0) == 0);
    }
}

/// With every block active, every position of the descriptor is compared.
pub proof fn lemma_full_mask_compares_everything(len: nat, p: int)
    requires
        0 <= p < len,
    ensures
        compared_position(len, full_mask(), p),
{
    assert(block_start(len, 16) == len) by (nonlinear_arith);
    assert(0xffffu32 & 0xffffu32 == 0xffffu32) by (bit_vector);
    lemma_blocks_tile(len, p, 16);
}

/// With every block active, the number of compared positions is the
/// descriptor length.
pub proof fn lemma_full_mask_count(len: nat)
    ensures
        count_where(len, compared_at(len, full_mask())) == len,
{
    assert forall|p: int| 0 <= p < len implies #[trigger] compared_at(len, full_mask())(p) by {
        lemma_full_mask_compares_everything(len, p);
    }
    lemma_count_all(len, compared_at(len, full_mask()));
}

proof fn lemma_count_all(n: nat, f: spec_fn(int) -> bool)
    requires
        forall|p: int| 0 <= p < n ==> #[trigger] f(p),
    ensures
        count_where(n, f) == n,
    decreases n,
{
    if n > 0 {
        lemma_count_all((n - 1) as nat, f);
    }
}

/// Which bit positions of packed descriptors take part in a comparison.
pub struct ComparisonMask {
    word_masks: Vec<u64>,
    selected_bits: usize,
}

/// The positions selected by packed mask words.
pub open spec fn selected_at(words: Seq<u64>) -> spec_fn(int) -> bool {
    |p: int| packed_bit(words, p)
}

/// The positions of two vectors, both within reach of the mask, where the
/// mask selects the position and `op` holds of the two vectors' bits.
pub open spec fn masked_at(mask: Seq<u64>, op: WordOp, a: Seq<bool>, b: Seq<bool>) -> spec_fn(
    int,
) -> bool {
    |p: int| packed_bit(mask, p) && combine(op, p < a.len() && a[p], p < b.len() && b[p])
}

/// Number of words of the mask and of the two vectors that are compared:
/// the fewest of the three.
pub open spec fn compared_words(mask_words: nat, a: Seq<bool>, b: Seq<bool>) -> nat {
    let wa = word_count(a.len());
    let wb = word_count(b.len());
    let m = if wa < wb {
        wa
    } else {
        wb
    };
    if mask_words < m {
        mask_words
    } else {
        m
    }
}

impl ComparisonMask {
    #[verifier::type_invariant]
    spec fn well_formed(self) -> bool {
        &&& 64 * self.word_masks.len() <= usize::MAX
        &&& self.selected_bits == count_where(
            64 * self.word_masks.len() as nat,
            selected_at(self.word_masks@),
        )
    }

    /// The packed mask words.
    pub closed spec fn spec_words(&self) -> Seq<u64> {
        self.word_masks@
    }

    /// Number of selected positions.
    pub closed spec fn spec_selected_bits(&self) -> nat {
        self.selected_bits as nat
    }

    /// Positions that differ (`Xor`), are set in both (`And`) or in either
    /// (`Or`) of two vectors among the selected positions.
    pub open spec fn masked_count(&self, op: WordOp, a: Seq<bool>, b: Seq<bool>) -> nat {
        count_where(
            64 * compared_words(self.spec_words().len(), a, b),
            masked_at(self.spec_words(), op, a, b),
        )
    }

    /// Hamming similarity over the selected positions: the share of them where
    /// the vectors agree, `0` when none is selected.
    pub open spec fn masked_hamming(&self, a: Seq<bool>, b: Seq<bool>) -> Similarity {
        let selected = self.spec_selected_bits();
        let mismatches = self.masked_count(WordOp::Xor, a, b);
        let capped = if mismatches < selected {
            mismatches
        } else {
            selected
        };
        if selected == 0 {
            Similarity { numerator: 0, denominator: 1 }
        } else {
            Similarity { numerator: (selected - capped) as usize, denominator: selected as usize }
        }
    }

    /// Jaccard similarity over the selected positions, `1` when neither
    /// vector has a selected set position.
    pub open spec fn masked_jaccard(&self, a: Seq<bool>, b: Seq<bool>) -> Similarity {
        let union = self.masked_count(WordOp::Or, a, b);
        if union == 0 {
            Similarity { numerator: 1, denominator: 1 }
        } else {
            Similarity {
                numerator: self.masked_count(WordOp::And, a, b) as usize,
                denominator: union as usize,
            }
        }
    }

    /// The mask of the blocks named by `active_blocks` (normalized) over a
    /// descriptor of `feature_len` features.
    pub fn new(feature_len: usize, active_blocks: u32) -> (r: Self)
        requires
            feature_len <= usize::MAX / 16,
        ensures
            r.spec_words().len() == word_count(feature_len as nat),
            forall|p: int|
                0 <= p < 64 * r.spec_words().len() ==> #[trigger] packed_bit(r.spec_words(), p)
                    == compared_position(feature_len as nat, active_blocks, p),
            r.spec_selected_bits() == count_where(
                feature_len as nat,
                compared_at(feature_len as nat, active_blocks),
            ),
    {
        if feature_len == 0 {
            let r = ComparisonMask { word_masks: Vec::new(), selected_bits: 0 };
            assert(r.spec_words().len() == 0);
            return r;
        }
        let active = normalize_block_mask(active_blocks);
        let len = feature_len;
        let nwords = words_for(len);
        let mut word_masks: Vec<u64> = vec![0u64; nwords];
        assert(64 * nwords <= len + 63 && len + 63 <= usize::MAX) by (nonlinear_arith)
            requires
                nwords == (len + 63) / 64,
                len <= usize::MAX / 16,
        ;
        proof {
            assert forall|p: int| 0 <= p < 64 * word_masks.len() implies #[trigger] packed_bit(
                word_masks@,
                p,
            ) == (p < len && covered_by(len as nat, active, p, 0)) by {
                assert(p / 64 < word_masks.len()) by (nonlinear_arith)
                    requires
                        0 <= p < 64 * word_masks.len(),
                ;
                lemma_zero_bits((p % 64) as u64);
            }
        }
        let mut block: u32 = 0;
        while block < 16
            invariant
                block <= 16,
                len == feature_len,
                len <= usize::MAX / 16,
                active == normalized(active_blocks),
                word_masks.len() == nwords,
                nwords == word_count(len as nat),
                64 * nwords <= len + 63,
                forall|p: int|
                    0 <= p < 64 * word_masks.len() ==> #[trigger] packed_bit(word_masks@, p) == (p
                        < len && covered_by(len as nat, active, p, block as nat)),
            decreases 16 - block,
        {
            let on = active & (1u32 << block) != 0;
            assert(on == mask_bit(active, block)) by (bit_vector)
                requires
                    on == (active & (1u32 << block) != 0),
                    block < 16,
            ;
            if on {
                assert(len * (block as usize + 1) <= usize::MAX) by (nonlinear_arith)
                    requires
                        len <= usize::MAX / 16,
                        block < 16,
                ;
                assert(len * (block as usize) <= len * (block as usize + 1)) by (nonlinear_arith);
                let start = len * (block as usize) / 16;
                let end = len * (block as usize + 1) / 16;
                proof {
                    lemma_block_start_bounds(len as nat, block as nat);
                    assert(start == block_start(len as nat, block as nat));
                    assert(end == block_start(len as nat, (block + 1) as nat));
                }
                let mut bit = start;
                while bit < end
                    invariant
                        start <= bit <= end,
                        end <= len,
                        start == block_start(len as nat, block as nat),
                        end == block_start(len as nat, (block + 1) as nat),
                        word_masks.len() == nwords,
                        nwords == word_count(len as nat),
                        forall|p: int|
                            0 <= p < 64 * word_masks.len() ==> #[trigger] packed_bit(
                                word_masks@,
                                p,
                            ) == ((p < len && covered_by(len as nat, active, p, block as nat)) || (
                            start <= p < bit)),
                    decreases end - bit,
                {
                    let k = bit / 64;
                    let j = (bit % 64) as u64;
                    assert(k < word_masks.len()) by (nonlinear_arith)
                        requires
                            k == bit / 64,
                            bit < len,
                            word_masks.len() == (len + 63) / 64,
                    ;
                    let ghost old_words = word_masks@;
                    let updated = word_masks[k] | (1u64 << j);
                    word_masks.set(k, updated);
                    proof {
                        assert forall|p: int| 0 <= p < 64 * word_masks.len() implies #[trigger] packed_bit(
                            word_masks@,
                            p,
                        ) == ((p < len && covered_by(len as nat, active, p, block as nat)) || (start
                            <= p < bit + 1)) by {
                            assert(p / 64 < word_masks.len()) by (nonlinear_arith)
                                requires
                                    0 <= p < 64 * word_masks.len(),
                            ;
                            lemma_bit_set_one(old_words[k as int], j, (p % 64) as u64);
                            lemma_same_position(p, bit as int);
                            assert(packed_bit(old_words, p) == ((p < len && covered_by(
                                len as nat,
                                active,
                                p,
                                block as nat,
                            )) || (start <= p < bit)));
                            if p / 64 != k {
                                assert(word_masks@[p / 64] == old_words[p / 64]);
                                assert(packed_bit(old_words, p) == packed_bit(word_masks@, p));
                            } else {
                                assert(word_masks@[p / 64] == updated);
                            }
                        }
                    }
                    bit = bit + 1;
                }
                proof {
                    assert forall|p: int| 0 <= p < 64 * word_masks.len() implies #[trigger] packed_bit(
                        word_masks@,
                        p,
                    ) == (p < len && covered_by(len as nat, active, p, (block + 1) as nat)) by {
                        if start <= p < end {
                            assert(in_block(len as nat, block as nat, p));
                        }
                    }
                }
            } else {
                proof {
                    assert forall|p: int| 0 <= p < 64 * word_masks.len() implies #[trigger] packed_bit(
                        word_masks@,
                        p,
                    ) == (p < len && covered_by(len as nat, active, p, (block + 1) as nat)) by {}
                }
            }
            block = block + 1;
        }
        let selected_bits = count_selected(&word_masks);
        let r = ComparisonMask { word_masks, selected_bits };
        proof {
            assert forall|p: int| 0 <= p < 64 * r.spec_words().len() implies #[trigger] packed_bit(
                r.spec_words(),
                p,
            ) == compared_position(feature_len as nat, active_blocks, p) by {
                if covered_by(len as nat, active, p, 16) {
                    lemma_covered_below_len(len as nat, active, p, 16);
                }
            }
            assert forall|p: int| len <= p < 64 * nwords implies !#[trigger] selected_at(
                word_masks@,
            )(p) by {}
            crate::bits::lemma_count_where_tail(64 * nwords as nat, len as nat, selected_at(word_masks@));
            lemma_count_where_ext(
                len as nat,
                selected_at(word_masks@),
                compared_at(feature_len as nat, active_blocks),
            );
        }
        r
    }

    /// Hamming similarity of two vectors over the selected positions.
    pub fn hamming_similarity(&self, left: &BinaryVector, right: &BinaryVector) -> (r: Similarity)
        ensures
            r == self.masked_hamming(left@, right@),
            similarity_wf(r),
    {
        proof {
            use_type_invariant(self);
        }
        if self.selected_bits == 0 {
            return Similarity { numerator: 0, denominator: 1 };
        }
        let mismatches = self.count_masked(WordOp::Xor, left, right);
        let capped = if mismatches < self.selected_bits {
            mismatches
        } else {
            self.selected_bits
        };
        Similarity { numerator: self.selected_bits - capped, denominator: self.selected_bits }
    }

    /// Jaccard similarity of two vectors over the selected positions.
    pub fn jaccard_similarity(&self, left: &BinaryVector, right: &BinaryVector) -> (r: Similarity)
        ensures
            r == self.masked_jaccard(left@, right@),
            similarity_wf(r),
    {
        let intersection = self.count_masked(WordOp::And, left, right);
        let union = self.count_masked(WordOp::Or, left, right);
        proof {
            let lim = 64 * compared_words(self.spec_words().len(), left@, right@);
            lemma_count_where_implies(
                lim,
                masked_at(self.spec_words(), WordOp::And, left@, right@),
                masked_at(self.spec_words(), WordOp::Or, left@, right@),
            );
        }
        if union == 0 {
            Similarity { numerator: 1, denominator: 1 }
        } else {
            Similarity { numerator: intersection, denominator: union }
        }
    }

    /// Counts the selected positions, within reach of all three, where `op`
    /// holds of the two vectors' bits.
    fn count_masked(&self, op: WordOp, left: &BinaryVector, right: &BinaryVector) -> (r: usize)
        ensures
            r == self.masked_count(op, left@, right@),
    {
        proof {
            use_type_invariant(self);
        }
        let a = left.words();
        let b = right.words();
        let m = &self.word_masks;
        let mut nw = m.len();
        if a.len() < nw {
            nw = a.len();
        }
        if b.len() < nw {
            nw = b.len();
        }
        let ghost f = masked_at(m@, op, left@, right@);
        let mut total: usize = 0;
        let mut k: usize = 0;
        while k < nw
            invariant
                k <= nw,
                nw <= m.len(),
                nw <= a.len(),
                nw <= b.len(),
                64 * m.len() <= usize::MAX,
                packs(a@, left@),
                packs(b@, right@),
                m@ == self.spec_words(),
                f == masked_at(m@, op, left@, right@),
                total == count_where(64 * k as nat, f),
                total <= 64 * k,
            decreases nw - k,
        {
            let w = word_op(op, a[k], b[k]);
            let x = m[k] & w;
            let c = count_ones(x) as usize;
            proof {
                assert forall|j: u64| j < 64 implies #[trigger] bit_set(x, j) == f(
                    (64 * k as nat) + j,
                ) by {
                    lemma_word_position(k as int, j as int);
                    lemma_bit_and(m[k as int], w, j);
                    let p = 64 * k + j;
                    assert(packed_bit(a@, p) == (p < left@.len() && left@[p]));
                    assert(packed_bit(b@, p) == (p < right@.len() && right@[p]));
                }
                lemma_count_block(f, 64 * k as nat, x, 64);
                lemma_ones_below_bound(x, 64);
            }
            total = total + c;
            k = k + 1;
        }
        total
    }
}

/// Counts the set bits of packed words.
fn count_selected(words: &Vec<u64>) -> (r: usize)
    requires
        64 * words.len() <= usize::MAX,
    ensures
        r == count_where(64 * words.len() as nat, selected_at(words@)),
{
    let ghost f = selected_at(words@);
    let mut total: usize = 0;
    let mut k: usize = 0;
    while k < words.len()
        invariant
            k <= words.len(),
            64 * words.len() <= usize::MAX,
            f == selected_at(words@),
            total == count_where(64 * k as nat, f),
            total <= 64 * k,
        decreases words.len() - k,
    {
        let x = words[k];
        let c = count_ones(x) as usize;
        proof {
            assert forall|j: u64| j < 64 implies #[trigger] bit_set(x, j) == f((64 * k as nat) + j) by {
                lemma_word_position(k as int, j as int);
            }
            lemma_count_block(f, 64 * k as nat, x, 64);
            lemma_ones_below_bound(x, 64);
        }
        total = total + c;
        k = k + 1;
    }
    total
}

proof fn lemma_same_position(p: int, i: int)
    requires
        0 <= p,
        0 <= i,
    ensures
        (p == i) <==> (p / 64 == i / 64 && p % 64 == i % 64),
{
    assert((p == i) <==> (p / 64 == i / 64 && p % 64 == i % 64)) by (nonlinear_arith)
        requires
            0 <= p,
            0 <= i,
    ;
}

} // verus!
