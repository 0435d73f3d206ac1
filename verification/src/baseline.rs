//! Input checks and class counts of the nearest-centroid baseline.
use vstd::prelude::*;

use crate::bits::count_where;
use crate::metrics::label_at;
use crate::bits::lemma_count_where_bound;

verus! {

/// Refusals of the nearest-centroid baseline.
#[derive(Debug, Clone, Copy, PartialEq, Eq, Structural)]
pub enum BaselineError {
    NoSamples,
    NoClasses,
    MismatchedLabelCount { sample_count: usize, label_count: usize },
    MismatchedFeatureCount { sample_index: usize, expected: usize, actual: usize },
    InvalidLabel { label: usize, class_count: usize },
}

/// Sample `i` is acceptable: it has the first sample's feature count and a
/// label below the class count.
pub open spec fn sample_ok(feature_counts: Seq<usize>, labels: Seq<usize>, class_count: usize, i: int) -> bool {
    feature_counts[i] == feature_counts[0] && labels[i] < class_count
}

/// The error for an unacceptable sample `i`: the feature count is checked
/// before the label.
pub open spec fn sample_error(feature_counts: Seq<usize>, labels: Seq<usize>, class_count: usize, i: int) -> BaselineError {
    if feature_counts[i] != feature_counts[0] {
        BaselineError::MismatchedFeatureCount {
            sample_index: i as usize,
            expected: feature_counts[0],
            actual: feature_counts[i],
        }
    } else {
        BaselineError::InvalidLabel { label: labels[i], class_count }
    }
}

/// Checks a training set given by the feature count of each sample and its
/// label, and counts the samples of each class. Refuses an empty set, zero
/// classes and differing numbers of samples and labels; otherwise refuses the
/// first sample whose feature count differs from the first sample's or whose
/// label is not a class.
pub fn fit_class_counts(feature_counts: &[usize], labels: &[usize], class_count: usize) -> (r: Result<Vec<usize>, BaselineError>)
    ensures
        feature_counts@.len() == 0 ==> r == Err::<Vec<usize>, BaselineError>(BaselineError::NoSamples),
        feature_counts@.len() != 0 && class_count == 0 ==> r == Err::<Vec<usize>, BaselineError>(BaselineError::NoClasses),
        feature_counts@.len() != 0 && class_count != 0 && feature_counts@.len() != labels@.len() ==> r == Err::<Vec<usize>, BaselineError>(
            BaselineError::MismatchedLabelCount {
                sample_count: feature_counts@.len() as usize,
                label_count: labels@.len() as usize,
            },
        ),
        feature_counts@.len() != 0 && class_count != 0 && feature_counts@.len() == labels@.len() ==> {
            ||| (forall|i: int| 0 <= i < labels@.len() ==> #[trigger] sample_ok(feature_counts@, labels@, class_count, i))
                && r is Ok && r->Ok_0@.len() == class_count
                && forall|c: int| 0 <= c < class_count ==> #[trigger] r->Ok_0@[c] == count_where(labels@.len(), label_at(labels@, c))
            ||| exists|i: int| 0 <= i < labels@.len() && !sample_ok(feature_counts@, labels@, class_count, i)
                && (forall|j: int| 0 <= j < i ==> #[trigger] sample_ok(feature_counts@, labels@, class_count, j))
                && r == Err::<Vec<usize>, BaselineError>(sample_error(feature_counts@, labels@, class_count, i))
        },
{
    if feature_counts.len() == 0 {
        return Err(BaselineError::NoSamples);
    }
    if class_count == 0 {
        return Err(BaselineError::NoClasses);
    }
    if feature_counts.len() != labels.len() {
        return Err(BaselineError::MismatchedLabelCount {
            sample_count: feature_counts.len(),
            label_count: labels.len(),
        });
    }
    let expected = feature_counts[0];
    let mut counts: Vec<usize> = vec![0usize; class_count];
    let mut i: usize = 0;
    while i < labels.len()
        invariant
            i <= labels@.len(),
            labels@.len() == feature_counts@.len(),
            feature_counts@.len() > 0,
            class_count > 0,
            expected == feature_counts@[0],
            counts@.len() == class_count,
            forall|j: int| 0 <= j < i ==> #[trigger] sample_ok(feature_counts@, labels@, class_count, j),
            forall|c: int| 0 <= c < class_count ==> #[trigger] counts@[c] == count_where(i as nat, label_at(labels@, c)),
        decreases labels@.len() - i,
    {
        if feature_counts[i] != expected {
            assert(!sample_ok(feature_counts@, labels@, class_count, i as int));
            return Err(BaselineError::MismatchedFeatureCount {
                sample_index: i,
                expected,
                actual: feature_counts[i],
            });
        }
        let label = labels[i];
        if label >= class_count {
            assert(!sample_ok(feature_counts@, labels@, class_count, i as int));
            return Err(BaselineError::InvalidLabel { label, class_count });
        }
        proof {
            lemma_count_where_bound(i as nat, label_at(labels@, label as int));
        }
        let next = counts[label] + 1;
        counts.set(label, next);
        i = i + 1;
    }
    Ok(counts)
}

} // verus!
