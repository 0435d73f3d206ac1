use progress_ai::analysis::ResizeDisagreement;
use progress_ai::debug_page::{
    index_html, BucketRowText, ClassRowText, DebugReportText, NeighborText, RankedRowText,
    ResizeRowText, SampleCardText,
};
use progress_ai::metrics::ConfusionRow;

fn text(value: &str) -> String {
    value.to_string()
}

fn empty_report() -> DebugReportText {
    DebugReportText {
        model: text("pann"),
        image_features: text("rich"),
        image_resize: text("stretch"),
        sample_count: 0,
        accuracy_percent: text("0.00"),
        summary: Vec::new(),
        buckets: Vec::new(),
        high_confidence_wrong: Vec::new(),
        ambiguous_wrong: Vec::new(),
        resize_disagreements: Vec::new(),
        per_class_accuracy: Vec::new(),
        confusion_matrix: Vec::new(),
        samples: Vec::new(),
    }
}

#[test]
fn empty_report_page_has_every_fixed_section() {
    let page = index_html(&empty_report());
    assert!(page.starts_with("<!doctype html><html><head><meta charset=\"utf-8\"><title>PANN/PANC Image Debug Report</title><style>body{"));
    assert!(page.contains("</style></head><body><h1>PANN/PANC Image Debug Report</h1><p class=\"muted\">model=pann features=rich resize=stretch samples=0</p><p class=\"metric\">Accuracy: 0.00%</p>"));
    assert!(page.contains("<tr><td><a href=\"config.json\">config.json</a></td><td>run configuration</td></tr>"));
    // No disagreement section without disagreements.
    assert!(!page.contains("Resize Sensitivity"));
    assert!(page.ends_with("<section><h2>Selected Samples</h2><div class=\"cards\"></div></section></body></html>"));
}

#[test]
fn report_rows_are_escaped_and_numbered() {
    let mut report = empty_report();
    report.summary = vec![text("a <b> & c")];
    report.buckets = vec![BucketRowText {
        bucket_group: text("brightness"),
        bucket: text("dark"),
        total: 12,
        wrong: 3,
        wrong_rate_percent: text("25.00"),
    }];
    report.high_confidence_wrong = vec![RankedRowText {
        path: text("x/\"q\".png"),
        expected_label: text("cat"),
        predicted_label: text("dog"),
        score_margin: text("0.7500"),
    }];
    report.resize_disagreements = (0..60)
        .map(|index| ResizeDisagreement {
            sample_index: index,
            path: format!("s{index}.png"),
            expected_label: text("cat"),
            artifact_prediction: text("dog"),
            alternate_predictions: text("stretch=dog;letterbox=cat"),
        })
        .collect();
    report.per_class_accuracy = vec![ClassRowText {
        class_name: text("cat"),
        correct: 9,
        total: 10,
        accuracy_percent: text("90.00"),
    }];
    report.confusion_matrix = vec![ConfusionRow {
        actual_index: 0,
        actual_name: text("cat"),
        predicted_counts: vec![9, 1],
    }];
    report.samples = vec![SampleCardText {
        title: text("0001"),
        correct: false,
        expected_label: text("cat"),
        predicted_label: text("dog"),
        score_margin: text("0.1000"),
        brightness_bucket: text("dark"),
        contrast_bucket: text("low"),
        width: 64,
        height: 48,
        crop_loss_percent: text("25.0"),
        resize_predictions: vec![ResizeRowText {
            resize_mode: text("letterbox"),
            predicted_label: text("cat"),
            differs_from_artifact_prediction: true,
            score_margin: text("0.2000"),
        }],
        original_path: text("samples/0001/original.png"),
        processed_path: text("samples/0001/processed.png"),
        nearest_neighbors: vec![
            NeighborText { asset_path: None, label: text("cat"), distance: text("1.0000") },
            NeighborText {
                asset_path: Some(text("samples/0001/n0.png")),
                label: text("dog"),
                distance: text("0.5000"),
            },
        ],
    }];
    let page = index_html(&report);
    assert!(page.contains("<li>a &lt;b&gt; &amp; c</li>"));
    assert!(page.contains("<tr><td>brightness</td><td>dark</td><td>12</td><td>3</td><td>25.00%</td></tr>"));
    assert!(page.contains("<tr><td>x/&quot;q&quot;.png</td><td>cat</td><td>dog</td><td>0.7500</td></tr>"));
    // At most fifty disagreements are shown.
    assert!(page.contains("<tr><td>s49.png</td>"));
    assert!(!page.contains("<tr><td>s50.png</td>"));
    assert!(page.contains("<tr><td>cat</td><td>9</td><td>10</td><td>90.00%</td></tr>"));
    assert!(page.contains("<tr><td>cat</td><td>9 | 1</td></tr>"));
    assert!(page.contains("<p class=\"bad\">wrong: expected cat, predicted dog, margin 0.1000</p>"));
    assert!(page.contains("<span class=\"pill\">64x48</span><span class=\"pill\">crop loss 25.0%</span>"));
    assert!(page.contains("<tr><td>letterbox</td><td class=\"bad\">cat</td><td>0.2000</td></tr>"));
    assert!(page.contains("<div class=\"neighbors\"><figure><img src=\"samples/0001/n0.png\"><figcaption>dog distance 0.5000</figcaption></figure></div>"));
}
