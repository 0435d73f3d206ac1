use progress_ai::binary::{BinarySimilarityMetric, BinaryVector, BitContribution, PancError, Similarity};
use progress_ai::comparator::BinaryPancComparator;
use progress_ai::vote::weighted_vote;

fn encode(values: &[f64], threshold: f64) -> BinaryVector {
    let bits: Vec<bool> = values.iter().map(|value| *value >= threshold).collect();
    BinaryVector::from_bits(&bits)
}

fn value(score: Similarity) -> f64 {
    score.numerator as f64 / score.denominator as f64
}

#[test]
fn tests_binary_encoding_and_bit_similarities_work() {
    let left = encode(&[1.0, 0.0, 1.0, 0.0], 0.5);
    let right = encode(&[1.0, 1.0, 1.0, 0.0], 0.5);

    assert!(left.get(0));
    assert!(!left.get(1));
    assert_eq!(value(left.hamming_similarity(&right).unwrap()), 0.75);
    assert!((value(left.jaccard_similarity(&right).unwrap()) - (2.0 / 3.0)).abs() < 1e-10);
}

#[test]
fn panc_binary_encoding_and_bit_similarities_work() {
    let left = encode(&[1.0, 0.0, 1.0, 0.0], 0.5);
    let right = encode(&[1.0, 1.0, 1.0, 0.0], 0.5);

    assert!(left.get(0));
    assert!(!left.get(1));
    assert_eq!(value(left.hamming_similarity(&right).unwrap()), 0.75);
    assert!((value(left.jaccard_similarity(&right).unwrap()) - (2.0 / 3.0)).abs() < 1e-10);
}

#[test]
fn tests_binary_comparator_ranks_and_explains() {
    let mut comparator = BinaryPancComparator::new(BinarySimilarityMetric::Jaccard);
    comparator.add_reference(encode(&[1.0, 0.0, 1.0], 0.5), "a", ()).unwrap();
    comparator.add_reference(encode(&[0.0, 1.0, 0.0], 0.5), "b", ()).unwrap();

    let query = encode(&[0.8, 0.1, 0.9], 0.5);
    let explanation = comparator.explain(&query, 1, 2).unwrap();

    assert_eq!(explanation.neighbors[0].label, "a");
    assert_eq!(explanation.contributions[0], (0, BitContribution::BothSet));
}

#[test]
fn panc_binary_comparator_ranks_and_explains() {
    let mut comparator = BinaryPancComparator::new(BinarySimilarityMetric::Jaccard);
    comparator.add_reference(encode(&[1.0, 0.0, 1.0], 0.5), "a", ()).unwrap();
    comparator.add_reference(encode(&[0.0, 1.0, 0.0], 0.5), "b", ()).unwrap();

    let query = encode(&[0.8, 0.1, 0.9], 0.5);
    let explanation = comparator.explain(&query, 1, 2).unwrap();

    assert_eq!(explanation.neighbors[0].label, "a");
    assert_eq!(explanation.contributions[0], (0, BitContribution::BothSet));
}

#[test]
fn packing_spans_several_words() {
    let bits: Vec<bool> = (0..130).map(|i| i % 3 == 0 || i == 129).collect();
    let vector = BinaryVector::from_bits(&bits);
    assert_eq!(vector.len(), 130);
    assert_eq!(vector.words().len(), 3);
    for (i, bit) in bits.iter().enumerate() {
        assert_eq!(vector.get(i), *bit);
    }
    assert!(!vector.get(130));
    assert!(!vector.get(1000));
    assert_eq!(vector.words()[2], 0b10);
}

#[test]
fn empty_vector_scores() {
    let empty = BinaryVector::from_bits(&[]);
    assert!(empty.is_empty());
    assert_eq!(empty.hamming_similarity(&empty).unwrap(), Similarity { numerator: 0, denominator: 1 });
    assert_eq!(empty.jaccard_similarity(&empty).unwrap(), Similarity { numerator: 1, denominator: 1 });
}

#[test]
fn similarities_are_symmetric_and_self_similar() {
    let a = BinaryVector::from_bits(&[true, false, true, true, false]);
    let b = BinaryVector::from_bits(&[false, false, true, false, true]);
    assert_eq!(a.hamming_similarity(&b).unwrap(), b.hamming_similarity(&a).unwrap());
    assert_eq!(a.jaccard_similarity(&b).unwrap(), b.jaccard_similarity(&a).unwrap());
    assert_eq!(a.hamming_similarity(&a).unwrap(), Similarity { numerator: 5, denominator: 5 });
    assert_eq!(a.jaccard_similarity(&a).unwrap(), Similarity { numerator: 3, denominator: 3 });
    assert_eq!(a.hamming_similarity(&b).unwrap(), Similarity { numerator: 2, denominator: 5 });
    assert_eq!(a.jaccard_similarity(&b).unwrap(), Similarity { numerator: 1, denominator: 4 });
}

#[test]
fn mismatched_lengths_are_refused() {
    let a = BinaryVector::from_bits(&[true, false]);
    let b = BinaryVector::from_bits(&[true, false, true]);
    let expected = PancError::DimensionMismatch { expected: 2, actual: 3 };
    assert_eq!(a.hamming_similarity(&b), Err(expected));
    assert_eq!(a.jaccard_similarity(&b), Err(expected));
    assert_eq!(a.validate_other(&b), Err(expected));
    assert!(a.contributing_bits(&b, 3).is_err());
}

#[test]
fn contributing_bits_rank_both_set_then_both_clear_then_differing() {
    let a = BinaryVector::from_bits(&[false, true, true, false, true]);
    let b = BinaryVector::from_bits(&[false, false, true, true, true]);
    let bits = a.contributing_bits(&b, 10).unwrap();
    assert_eq!(
        bits,
        vec![
            (2, BitContribution::BothSet),
            (4, BitContribution::BothSet),
            (0, BitContribution::BothClear),
            (1, BitContribution::Differ),
            (3, BitContribution::Differ),
        ]
    );
    assert_eq!(a.contributing_bits(&b, 2).unwrap().len(), 2);
}

#[test]
fn comparator_refuses_empty_and_mismatched_references() {
    let mut comparator: BinaryPancComparator<&str, ()> =
        BinaryPancComparator::new(BinarySimilarityMetric::Hamming);
    assert_eq!(
        comparator.add_reference(BinaryVector::from_bits(&[]), "x", ()),
        Err(PancError::EmptyReferenceVector)
    );
    comparator.add_reference(BinaryVector::from_bits(&[true, false]), "a", ()).unwrap();
    assert_eq!(
        comparator.add_reference(BinaryVector::from_bits(&[true]), "b", ()),
        Err(PancError::DimensionMismatch { expected: 2, actual: 1 })
    );
    let query = BinaryVector::from_bits(&[true, true, true]);
    assert!(matches!(
        comparator.top_k(&query, 1),
        Err(PancError::DimensionMismatch { expected: 2, actual: 3 })
    ));
}

#[test]
fn top_k_orders_by_score_then_library_position() {
    let mut comparator = BinaryPancComparator::new(BinarySimilarityMetric::Hamming);
    comparator.add_reference(BinaryVector::from_bits(&[true, true, false, false]), 0usize, "first").unwrap();
    comparator.add_reference(BinaryVector::from_bits(&[true, false, false, false]), 1usize, "second").unwrap();
    comparator.add_reference(BinaryVector::from_bits(&[true, true, true, true]), 2usize, "third").unwrap();
    comparator.add_reference(BinaryVector::from_bits(&[true, false, false, false]), 3usize, "fourth").unwrap();
    let query = BinaryVector::from_bits(&[true, true, false, true]);
    let neighbors = comparator.top_k(&query, 10).unwrap();
    let order: Vec<usize> = neighbors.iter().map(|n| n.index).collect();
    assert_eq!(order, vec![0, 2, 1, 3]);
    assert_eq!(neighbors[0].score, Similarity { numerator: 3, denominator: 4 });
    assert_eq!(neighbors[2].metadata, "second");
    assert_eq!(comparator.top_k(&query, 2).unwrap().len(), 2);
    assert_eq!(comparator.top_k(&query, 0).unwrap().len(), 0);
}

fn frac(numerator: usize, denominator: usize) -> Similarity {
    Similarity { numerator, denominator }
}

#[test]
fn weighted_vote_sums_scores_then_counts_votes() {
    // 1/3 + 1/3 beats 1/2.
    assert_eq!(weighted_vote(&[frac(1, 2), frac(1, 3), frac(1, 3)], &[0, 1, 1]), Some(1));
    // 1/2 beats 1/5 + 1/5.
    assert_eq!(weighted_vote(&[frac(1, 2), frac(1, 5), frac(1, 5)], &[0, 1, 1]), Some(0));
    // Equal sums: the label with more votes wins.
    assert_eq!(weighted_vote(&[frac(1, 2), frac(1, 4), frac(1, 4)], &[0, 1, 1]), Some(1));
    // A full tie goes to the label met first.
    assert_eq!(weighted_vote(&[frac(1, 2), frac(2, 4)], &[5, 3]), Some(5));
    assert_eq!(weighted_vote(&[], &[]), None);
    // Large denominators are compared exactly.
    let big = usize::MAX;
    assert_eq!(
        weighted_vote(&[frac(big - 2, big - 1), frac(big - 1, big)], &[7, 8]),
        Some(8)
    );
    assert_eq!(
        weighted_vote(&[frac(big - 1, big), frac(big - 2, big - 1), frac(1, big)], &[7, 8, 8]),
        Some(8)
    );
}

#[test]
fn binary_predict_label_sums_scores_of_the_nearest() {
    let mut comparator = BinaryPancComparator::<usize, ()>::new(BinarySimilarityMetric::Hamming);
    comparator
        .add_reference(BinaryVector::from_bits(&[true, false, true, true]), 0, ())
        .unwrap();
    comparator
        .add_reference(BinaryVector::from_bits(&[true, false, true, false]), 1, ())
        .unwrap();
    comparator
        .add_reference(BinaryVector::from_bits(&[true, false, false, false]), 1, ())
        .unwrap();
    let query = BinaryVector::from_bits(&[true, false, true, true]);
    // Scores 4/4 for label 0, 3/4 + 2/4 for label 1.
    assert_eq!(comparator.predict_label(&query, 3), Ok(Some(1)));
    assert_eq!(comparator.predict_label(&query, 2), Ok(Some(0)));
    assert_eq!(comparator.predict_label(&query, 1), Ok(Some(0)));
    assert_eq!(comparator.predict_label(&query, 0), Ok(None));
    assert_eq!(
        comparator.predict_label(&BinaryVector::from_bits(&[true]), 3),
        Err(PancError::DimensionMismatch { expected: 4, actual: 1 })
    );
    let empty = BinaryPancComparator::<usize, ()>::new(BinarySimilarityMetric::Jaccard);
    assert_eq!(empty.predict_label(&query, 3), Ok(None));
}
