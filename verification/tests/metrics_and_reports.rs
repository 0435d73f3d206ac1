use progress_ai::analysis;
use progress_ai::baseline::{fit_class_counts, BaselineError};
use progress_ai::metrics::{
    classification_counts, collect_labels, format_confusion_matrix, most_common_confusion,
    push_unique_indices, ConfusionRow,
};
use progress_ai::pann::{plasticity_halvings, PlasticitySchedule};
use progress_ai::patch::sliding_positions;
use progress_ai::report::{
    escape_html, hardware_note, html_escape, label_name, sanitize_file_part, sanitize_path_part,
    validate_version, ArtifactError, ARTIFACT_VERSION,
};
use progress_ai::vision::{
    spatial_cell, supported_image_extension, validate_config, ImageVectorConfig, InvalidImageSize,
};

fn names(values: &[&str]) -> Vec<String> {
    values.iter().map(|value| value.to_string()).collect()
}

fn row(index: usize, name: &str, counts: &[usize]) -> ConfusionRow {
    ConfusionRow { actual_index: index, actual_name: name.to_string(), predicted_counts: counts.to_vec() }
}

#[test]
fn classification_counts_fill_the_confusion_matrix() {
    let labels = [0, 0, 1, 1, 2, 5];
    let predictions = [0, 1, 1, 1, 0, 5, 9];
    let counts = classification_counts(&labels, &predictions, &names(&["a", "b", "c"]));
    assert_eq!(counts.counted, 6);
    assert_eq!(counts.correct, 4);
    assert_eq!(counts.totals, vec![2, 2, 1]);
    assert_eq!(counts.correct_by_class, vec![1, 2, 0]);
    assert_eq!(counts.confusion_matrix[0].predicted_counts, vec![1, 1, 0]);
    assert_eq!(counts.confusion_matrix[1].predicted_counts, vec![0, 2, 0]);
    assert_eq!(counts.confusion_matrix[2].predicted_counts, vec![1, 0, 0]);
    assert_eq!(counts.confusion_matrix[2].actual_name, "c");
    assert_eq!(counts.confusion_matrix[2].actual_index, 2);
}

#[test]
fn most_common_confusion_takes_the_first_largest() {
    let rows = vec![row(0, "cat", &[5, 2, 0]), row(1, "dog", &[2, 4, 1]), row(2, "fox", &[0, 0, 3])];
    let class_names = names(&["cat", "dog"]);
    assert_eq!(most_common_confusion(&rows, &class_names), Some(("cat -> dog".to_string(), 2)));
    let diagonal = vec![row(0, "cat", &[5, 0]), row(1, "dog", &[0, 4])];
    assert_eq!(most_common_confusion(&diagonal, &class_names), None);
    let unknown = vec![row(0, "cat", &[1, 0, 0, 3])];
    assert_eq!(most_common_confusion(&unknown, &class_names), Some(("cat -> unknown".to_string(), 3)));
}

#[test]
fn failure_analysis_takes_the_last_largest_confusion() {
    let rows = vec![row(0, "cat", &[5, 2]), row(1, "dog", &[2, 4])];
    let finding = analysis::most_common_confusion(&rows).unwrap();
    assert_eq!(finding.actual_name, "dog");
    assert_eq!(finding.predicted_name, "cat");
    assert_eq!(finding.count, 2);
    let zeros = vec![row(0, "cat", &[5, 0, 0])];
    let finding = analysis::most_common_confusion(&zeros).unwrap();
    assert_eq!(finding.predicted_name, "class-2");
    assert_eq!(finding.count, 0);
    assert!(analysis::most_common_confusion(&[row(0, "cat", &[5])]).is_none());
}

#[test]
fn confusion_matrix_text() {
    let rows = vec![row(0, "cat", &[5, 12]), row(1, "dog", &[0, 40])];
    assert_eq!(format_confusion_matrix(&rows), "cat=[5|12];dog=[0|40]");
    assert_eq!(format_confusion_matrix(&[]), "");
    assert_eq!(format_confusion_matrix(&[row(0, "x", &[])]), "x=[]");
}

#[test]
fn labels_and_unique_indices() {
    assert_eq!(collect_labels(&[7, 8, 9], &[2, 0, 2]), vec![9, 7, 9]);
    let mut target = vec![3, 1];
    push_unique_indices(&mut target, &[1, 4, 4, 3, 0]);
    assert_eq!(target, vec![3, 1, 4, 0]);
}

#[test]
fn nearest_centroid_rejects_mixed_feature_counts() {
    assert_eq!(
        fit_class_counts(&[1, 2], &[0, 1], 2).unwrap_err(),
        BaselineError::MismatchedFeatureCount { sample_index: 1, expected: 1, actual: 2 }
    );
}

#[test]
fn baseline_checks_and_counts_classes() {
    assert_eq!(fit_class_counts(&[], &[], 2), Err(BaselineError::NoSamples));
    assert_eq!(fit_class_counts(&[2], &[0], 0), Err(BaselineError::NoClasses));
    assert_eq!(
        fit_class_counts(&[2, 2], &[0], 2),
        Err(BaselineError::MismatchedLabelCount { sample_count: 2, label_count: 1 })
    );
    assert_eq!(
        fit_class_counts(&[2, 2], &[0, 3], 2),
        Err(BaselineError::InvalidLabel { label: 3, class_count: 2 })
    );
    assert_eq!(fit_class_counts(&[2, 2, 2, 2], &[0, 0, 1, 0], 3), Ok(vec![3, 1, 0]));
}

#[test]
fn sliding_positions_end_flush() {
    assert_eq!(sliding_positions(10, 12, 4), vec![0]);
    assert_eq!(sliding_positions(10, 10, 4), vec![0]);
    assert_eq!(sliding_positions(10, 4, 3), vec![0, 3, 6]);
    assert_eq!(sliding_positions(10, 4, 2), vec![0, 2, 4, 6]);
    assert_eq!(sliding_positions(10, 4, 0), vec![0, 1, 2, 3, 4, 5, 6]);
    assert_eq!(sliding_positions(u32::MAX, 1, u32::MAX - 2), vec![0, u32::MAX - 2, u32::MAX - 1]);
    assert_eq!(sliding_positions(100, 96, 48), vec![0, 4]);
}

#[test]
fn text_is_made_safe() {
    assert_eq!(escape_html("<a href=\"x\">Tom & 'Jerry'</a>"), "&lt;a href=&quot;x&quot;&gt;Tom &amp; &#39;Jerry&#39;&lt;/a&gt;");
    assert_eq!(html_escape("a<b"), "a&lt;b");
    assert_eq!(sanitize_path_part(""), "sample");
    assert_eq!(sanitize_path_part("a b/c"), "a_b_c");
    assert_eq!(sanitize_file_part("__img 01.png__"), "img_01_png");
    assert_eq!(sanitize_file_part("___"), "");
    let long: String = std::iter::repeat('x').take(200).collect();
    assert_eq!(sanitize_file_part(&long).len(), 96);
}

#[test]
fn labels_and_versions() {
    let class_names = names(&["cat", "dog"]);
    assert_eq!(label_name(&class_names, 1), "dog");
    assert_eq!(label_name(&class_names, 12), "class-12");
    assert_eq!(ARTIFACT_VERSION, 1);
    assert_eq!(validate_version(1), Ok(()));
    assert_eq!(validate_version(2), Err(ArtifactError::UnsupportedVersion(2)));
    assert!(hardware_note().starts_with("CPU-parallel genetic search"));
}

#[test]
fn image_geometry() {
    let config = ImageVectorConfig::new(16, 8);
    assert_eq!(config, ImageVectorConfig { width: 16, height: 8, invert: false });
    assert_eq!(config.pixel_count(), 128);
    assert_eq!(validate_config(config), Ok(()));
    assert_eq!(validate_config(ImageVectorConfig::new(0, 8)), Err(InvalidImageSize));
    assert_eq!(spatial_cell(0, 0, 16, 8), 0);
    assert_eq!(spatial_cell(15, 7, 16, 8), 15);
    assert_eq!(spatial_cell(8, 2, 16, 8), 6);
    assert_eq!(spatial_cell(100, 100, 0, 0), 15);
    assert!(supported_image_extension("JPG"));
    assert!(supported_image_extension("jpeg"));
    assert!(supported_image_extension("Png"));
    assert!(!supported_image_extension("gif"));
    assert!(!supported_image_extension(""));
}

#[test]
fn plasticity_schedule_halves_then_freezes() {
    assert_eq!(plasticity_halvings(PlasticitySchedule::NoDecay, 7), Some(0));
    let schedule = PlasticitySchedule::PatentHalving { freeze_after: 3 };
    assert_eq!(plasticity_halvings(schedule, 0), Some(0));
    assert_eq!(plasticity_halvings(schedule, 2), Some(2));
    assert_eq!(plasticity_halvings(schedule, 3), None);
}

#[test]
fn class_counts_groups_labels_by_name() {
    // the synthetic image dataset with two samples per class labels its
    // samples 0, 0, 1, 1, 2, 2
    let labels = [0, 0, 1, 1, 2, 2];
    let class_names = names(&["vertical", "horizontal", "diagonal"]);
    let counts: std::collections::HashMap<String, usize> =
        progress_ai::metrics::class_counts(&labels, &class_names).into_iter().collect();

    assert_eq!(counts["vertical"], 2);
    assert_eq!(counts["horizontal"], 2);
    assert_eq!(counts["diagonal"], 2);
}

#[test]
fn class_counts_name_unknown_labels() {
    let counts = progress_ai::metrics::class_counts(&[3, 0, 3, 9], &names(&["a", "class-3"]));
    assert_eq!(
        counts,
        vec![("class-3".to_string(), 2), ("a".to_string(), 1), ("class-9".to_string(), 1)]
    );
    assert!(progress_ai::metrics::class_counts(&[], &names(&["a"])).is_empty());
}
