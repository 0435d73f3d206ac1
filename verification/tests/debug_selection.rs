use progress_ai::analysis::{
    confidence_summary, mark_resize_differences, resize_disagreements, select_misclassified_indices,
    selected_prediction_indices, ResizeOutcome, SamplePrediction, SampleResizeComparison,
};
use progress_ai::buckets::{bucket_tallies, text_lt};
use progress_ai::cli::DebugSamples;
use progress_ai::datasets::normal_class_name;
use progress_ai::pann::weight_slot;
use progress_ai::report::{sample_dir_name, ImageArtifact};
use progress_ai::settings::default_args;

#[test]
fn debug_samples_follow_the_selection() {
    let correct = [true, false, true, false, false, true];
    assert_eq!(
        selected_prediction_indices(&correct, DebugSamples::All, 4, &[], &[]),
        vec![0, 1, 2, 3]
    );
    assert_eq!(
        selected_prediction_indices(&correct, DebugSamples::All, 10, &[], &[]),
        vec![0, 1, 2, 3, 4, 5]
    );
    assert_eq!(
        selected_prediction_indices(&correct, DebugSamples::Correct, 2, &[], &[]),
        vec![0, 2]
    );
    assert_eq!(
        selected_prediction_indices(&correct, DebugSamples::Correct, 0, &[], &[]),
        Vec::<usize>::new()
    );
    assert_eq!(
        selected_prediction_indices(&correct, DebugSamples::Misclassified, 2, &[4, 1, 3], &[3, 1, 4]),
        vec![4, 3]
    );
    assert_eq!(
        selected_prediction_indices(&correct, DebugSamples::Misclassified, 5, &[4, 1, 3], &[3, 1, 4]),
        vec![4, 1, 3]
    );
}

#[test]
fn misclassified_selection_mixes_confident_and_ambiguous() {
    assert_eq!(select_misclassified_indices(&[9, 8, 7, 6], &[6, 7, 8, 9], &[6, 7, 8, 9], 4), vec![9, 8, 6, 7]);
    assert_eq!(select_misclassified_indices(&[9, 8, 7, 6], &[6, 7, 8, 9], &[6, 7, 8, 9], 1), vec![9]);
    assert_eq!(select_misclassified_indices(&[], &[], &[], 3), Vec::<usize>::new());
    assert_eq!(select_misclassified_indices(&[5], &[5], &[2, 5, 3], 3), vec![5, 2, 3]);
}

#[test]
fn weight_slots_are_input_major() {
    assert_eq!(weight_slot(4, 8, 3, 0, 0, 0), Some(0));
    assert_eq!(weight_slot(4, 8, 3, 1, 2, 1), Some((8 + 2) * 3 + 1));
    assert_eq!(weight_slot(4, 8, 3, 3, 7, 2), Some(4 * 8 * 3 - 1));
    assert_eq!(weight_slot(4, 8, 3, 4, 0, 0), None);
    assert_eq!(weight_slot(4, 8, 3, 0, 8, 0), None);
    assert_eq!(weight_slot(4, 8, 3, 0, 0, 3), None);
}

#[test]
fn sample_directories_are_numbered_and_safe() {
    assert_eq!(sample_dir_name(7, "cat", "dog", "img 01"), "0007_expected_cat_predicted_dog_img_01");
    assert_eq!(sample_dir_name(12345, "a/b", "c", "s"), "12345_expected_a_b_predicted_c_s");
    assert_eq!(sample_dir_name(0, "", "", ""), "0000_expected__predicted");
}

#[test]
fn image_artifacts_record_the_run_settings() {
    let mut args = default_args("train-panc-image-folder".to_string());
    args.image_width = 64;
    args.image_features = "rich-texture".to_string();
    let image = ImageArtifact::from_settings(&args);
    assert_eq!((image.width, image.height), (64, 16));
    assert_eq!(image.feature_mode, "rich-texture");
    assert_eq!(image.resize_mode, "stretch");
}

#[test]
fn the_normal_class_prefers_normal_then_good_then_the_first() {
    let names = |values: &[&str]| values.iter().map(|v| v.to_string()).collect::<Vec<_>>();
    assert_eq!(normal_class_name(&names(&["crack", "good", "normal"])), Some("normal".to_string()));
    assert_eq!(normal_class_name(&names(&["crack", "good"])), Some("good".to_string()));
    assert_eq!(normal_class_name(&names(&["crack", "hole"])), Some("crack".to_string()));
    assert_eq!(normal_class_name(&names(&[])), None);
}

#[test]
fn failure_buckets_rank_by_wrong_rate_then_name() {
    let bucket = |name: &str| Some(name.to_string());
    let buckets = vec![
        bucket("dark"),
        bucket("bright"),
        None,
        bucket("dark"),
        bucket("medium"),
        bucket("bright"),
        bucket("dark"),
        bucket("medium"),
    ];
    let correct = [false, true, false, true, false, false, true, true];
    let rows = bucket_tallies(&buckets, &correct);
    let summary = rows
        .iter()
        .map(|row| (row.bucket.as_str(), row.total, row.wrong))
        .collect::<Vec<_>>();
    assert_eq!(summary, vec![("bright", 2, 1), ("medium", 2, 1), ("dark", 3, 1)]);
    assert!(bucket_tallies(&[None, None], &[false, true]).is_empty());
    assert!(text_lt("Zebra", "apple"));
    assert!(text_lt("app", "apple"));
    assert!(!text_lt("apple", "apple"));
}

fn outcome(mode: &str, index: usize, label: &str) -> ResizeOutcome {
    ResizeOutcome {
        resize_mode: mode.to_string(),
        predicted_index: index,
        predicted_label: label.to_string(),
        differs_from_artifact_prediction: false,
    }
}

fn differences(outcomes: &[ResizeOutcome]) -> Vec<bool> {
    outcomes
        .iter()
        .map(|o| o.differs_from_artifact_prediction)
        .collect()
}

#[test]
fn resize_differences_follow_the_configured_mode() {
    let mut outcomes = vec![
        outcome("stretch", 2, "cat"),
        outcome("center-crop", 1, "dog"),
        outcome("letterbox", 2, "cat"),
    ];
    mark_resize_differences(&mut outcomes, "center-crop");
    assert_eq!(differences(&outcomes), vec![true, false, true]);
    assert_eq!(outcomes[1].predicted_label, "dog");

    mark_resize_differences(&mut outcomes, "stretch");
    assert_eq!(differences(&outcomes), vec![false, true, false]);

    // An unknown mode compares with the first listed one.
    let mut unknown = vec![outcome("stretch", 0, "a"), outcome("letterbox", 3, "d")];
    mark_resize_differences(&mut unknown, "nearest");
    assert_eq!(differences(&unknown), vec![false, true]);

    let mut empty: Vec<ResizeOutcome> = Vec::new();
    mark_resize_differences(&mut empty, "stretch");
    assert!(empty.is_empty());
}

fn sample(index: usize, path: &str, expected: &str, predicted: &str) -> SamplePrediction {
    SamplePrediction {
        sample_index: index,
        path: path.to_string(),
        expected_label: expected.to_string(),
        predicted_label: predicted.to_string(),
    }
}

#[test]
fn resize_disagreements_list_samples_whose_class_changes() {
    let predictions = vec![
        sample(0, "a.png", "cat", "cat"),
        sample(4, "b.png", "dog", "cat"),
        sample(7, "c.png", "dog", "dog"),
        sample(4, "b2.png", "dog", "bird"),
    ];
    let mut changing = vec![outcome("stretch", 0, "cat"), outcome("letterbox", 1, "dog")];
    mark_resize_differences(&mut changing, "stretch");
    let mut steady = vec![outcome("stretch", 1, "dog"), outcome("letterbox", 1, "dog")];
    mark_resize_differences(&mut steady, "stretch");
    let mut unknown_sample = vec![outcome("stretch", 0, "cat"), outcome("letterbox", 2, "bird")];
    mark_resize_differences(&mut unknown_sample, "stretch");
    let comparisons = vec![
        SampleResizeComparison { sample_index: 4, predictions: changing },
        SampleResizeComparison { sample_index: 7, predictions: steady },
        SampleResizeComparison { sample_index: 9, predictions: unknown_sample },
    ];
    let found = resize_disagreements(&predictions, &comparisons);
    assert_eq!(found.len(), 1);
    assert_eq!(found[0].sample_index, 4);
    // The last prediction recorded for a sample describes it.
    assert_eq!(found[0].path, "b2.png");
    assert_eq!(found[0].expected_label, "dog");
    assert_eq!(found[0].artifact_prediction, "bird");
    assert_eq!(found[0].alternate_predictions, "stretch=cat;letterbox=dog");
    assert!(resize_disagreements(&predictions, &[]).is_empty());
}

#[test]
fn confidence_summary_counts_wrong_predictions() {
    let correct = [true, false, false, true, false];
    let high = [true, true, false, false, false];
    let low = [false, false, true, true, true];
    let summary = confidence_summary(&correct, &high, &low);
    assert_eq!(summary.wrong_total, 3);
    assert_eq!(summary.high_confidence_wrong, 1);
    assert_eq!(summary.ambiguous_wrong, 2);
    let none = confidence_summary(&[], &[], &[]);
    assert_eq!(none.wrong_total, 0);
}
