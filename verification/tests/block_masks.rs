use progress_ai::binary::{BinaryVector, Similarity};
use progress_ai::blocks::{
    all_blocks_mask, block_mask_from_picks, crossover_block_mask, crossover_from_choices,
    default_active_blocks, format_block_mask, mutation_from_toggles,
    mutate_block_mask, normalize_block_mask, random_block_mask, ComparisonMask, FEATURE_BLOCK_COUNT,
};
use rand::{Rng, SeedableRng};
use rand_chacha::ChaCha8Rng;
use progress_ai::draws::SearchRng;

#[test]
fn full_mask_covers_sixteen_blocks() {
    assert_eq!(FEATURE_BLOCK_COUNT, 16);
    assert_eq!(all_blocks_mask(), 0xffff);
    assert_eq!(default_active_blocks(), 0xffff);
}

#[test]
fn normalizing_drops_high_bits_and_fills_empty_masks() {
    assert_eq!(normalize_block_mask(0), 0xffff);
    assert_eq!(normalize_block_mask(0x1_0000), 0xffff);
    assert_eq!(normalize_block_mask(0x1_0003), 0x0003);
    assert_eq!(normalize_block_mask(0x00f0), 0x00f0);
    for mask in [0u32, 1, 0x8000, 0xffff, 0x12345, u32::MAX] {
        let once = normalize_block_mask(mask);
        assert_ne!(once, 0);
        assert_eq!(once & !0xffff, 0);
        assert_eq!(normalize_block_mask(once), once);
    }
}

#[test]
fn block_masks_render_as_four_hex_digits() {
    assert_eq!(format_block_mask(0x0003), "0x0003");
    assert_eq!(format_block_mask(0), "0xffff");
    assert_eq!(format_block_mask(0xabcd), "0xabcd");
    assert_eq!(format_block_mask(0x1_0010), "0x0010");
}

#[test]
fn crossover_takes_each_block_from_the_chosen_parent() {
    let mut take_left = [false; 16];
    take_left[0] = true;
    take_left[1] = true;
    assert_eq!(crossover_from_choices(0x0003, 0xff00, &take_left), 0xff03);
    assert_eq!(crossover_from_choices(0x0000, 0x0000, &take_left), 0xffff);
    let all_left = [true; 16];
    assert_eq!(crossover_from_choices(0x00f0, 0x0f00, &all_left), 0x00f0);
}

#[test]
fn random_masks_are_valid() {
    let mut picks = [false; 16];
    picks[3] = true;
    picks[15] = true;
    assert_eq!(block_mask_from_picks(false, &picks), 0x8008);
    assert_eq!(block_mask_from_picks(true, &picks), 0xffff);
    assert_eq!(block_mask_from_picks(false, &[false; 16]), 0xffff);
}

#[test]
fn mutation_toggles_blocks_and_stays_valid() {
    let mut mask = 0x000fu32;
    mutation_from_toggles(&mut mask, false, &[0, 4]);
    assert_eq!(mask, 0x001e);
    mutation_from_toggles(&mut mask, false, &[4, 4]);
    assert_eq!(mask, 0x001e);
    let mut single = 0x0001u32;
    mutation_from_toggles(&mut single, false, &[0]);
    assert_eq!(single, 0xffff);
    mutation_from_toggles(&mut single, true, &[]);
    assert_eq!(single, 0xffff);
    let mut high = 0xf_0001u32;
    mutation_from_toggles(&mut high, false, &[1]);
    assert_eq!(high, 0x0003);
}

#[test]
fn comparison_mask_selects_the_active_blocks() {
    let empty = ComparisonMask::new(0, 0x1);
    let a = BinaryVector::from_bits(&[]);
    assert_eq!(empty.hamming_similarity(&a, &a), Similarity { numerator: 0, denominator: 1 });
    assert_eq!(empty.jaccard_similarity(&a, &a), Similarity { numerator: 1, denominator: 1 });

    let mut class_zero = vec![false; 16];
    class_zero[0] = true;
    class_zero[1] = true;
    let mut class_one = vec![false; 16];
    class_one[14] = true;
    class_one[15] = true;
    let mut query = class_zero.clone();
    query[14] = true;
    query[15] = true;
    let zero = BinaryVector::from_bits(&class_zero);
    let one = BinaryVector::from_bits(&class_one);
    let q = BinaryVector::from_bits(&query);

    let first_two = ComparisonMask::new(16, 0b11);
    assert_eq!(first_two.hamming_similarity(&q, &zero), Similarity { numerator: 2, denominator: 2 });
    assert_eq!(first_two.hamming_similarity(&q, &one), Similarity { numerator: 0, denominator: 2 });
    assert_eq!(first_two.jaccard_similarity(&q, &zero), Similarity { numerator: 2, denominator: 2 });

    let all = ComparisonMask::new(16, all_blocks_mask());
    assert_eq!(all.hamming_similarity(&q, &zero), q.hamming_similarity(&zero).unwrap());
    assert_eq!(all.jaccard_similarity(&q, &one), q.jaccard_similarity(&one).unwrap());
}

#[test]
fn comparison_mask_splits_long_descriptors_into_blocks() {
    let bits: Vec<bool> = (0..100).map(|i| i % 2 == 0).collect();
    let other: Vec<bool> = (0..100).map(|_| true).collect();
    let a = BinaryVector::from_bits(&bits);
    let b = BinaryVector::from_bits(&other);
    // block 0 covers positions 0..6 (100 * 1 / 16 = 6): three of them disagree
    let block_zero = ComparisonMask::new(100, 0x1);
    assert_eq!(block_zero.hamming_similarity(&a, &b), Similarity { numerator: 3, denominator: 6 });
    let all = ComparisonMask::new(100, 0);
    assert_eq!(all.hamming_similarity(&a, &b), Similarity { numerator: 50, denominator: 100 });
    assert_eq!(all.hamming_similarity(&a, &b), a.hamming_similarity(&b).unwrap());
}

fn valid(mask: u32) -> bool {
    mask != 0 && mask <= 0xffff
}

#[test]
fn drawn_masks_are_valid_and_follow_the_seed() {
    let mut rng = SearchRng::new(ChaCha8Rng::seed_from_u64(11));
    let mut again = SearchRng::new(ChaCha8Rng::seed_from_u64(11));
    for _ in 0..64 {
        let mask = random_block_mask(&mut rng);
        assert!(valid(mask));
        assert_eq!(random_block_mask(&mut again), mask);
    }
    for _ in 0..64 {
        let child = crossover_block_mask(0x00ff, 0xf000, &mut rng);
        assert!(valid(child));
        // Every block comes from one of the parents (all of them when the
        // draws picked no set block).
        assert!(child == 0xffff || child & !(0x00ff | 0xf000) == 0);
        let mut mask = 0x0101;
        mutate_block_mask(&mut mask, &mut rng);
        assert!(valid(mask));
        let flipped = (mask ^ 0x0101).count_ones();
        assert!(mask == 0xffff || flipped <= 3);
    }
}

#[test]
fn drawn_masks_follow_the_original_chances() {
    // The same draws as `gen_bool(0.25)` then sixteen `gen_bool(0.65)`.
    for seed in 0..32u64 {
        let mut search = SearchRng::new(ChaCha8Rng::seed_from_u64(seed));
        let mask = random_block_mask(&mut search);
        let mut plain = ChaCha8Rng::seed_from_u64(seed);
        let expected = if plain.gen_bool(0.25) {
            0xffff
        } else {
            let mut m = 0u32;
            for block in 0..16 {
                if plain.gen_bool(0.65) {
                    m |= 1 << block;
                }
            }
            if m == 0 { 0xffff } else { m }
        };
        assert_eq!(mask, expected);
    }
}
