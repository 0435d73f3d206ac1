//! The HTML page of an image-evaluation debug report, built from the
//! report's values as text: numbers that are not integers come already
//! formatted, and every other text is escaped.
use vstd::prelude::*;
use vstd::string::StringExecFns;

use crate::analysis::ResizeDisagreement;
use crate::metrics::{join_with, ConfusionRow};
use crate::report::{escape_html, html_text};
use crate::text::{decimal_text, push_decimal};

verus! {

/// One row of the failure-bucket table.
pub struct BucketRowText {
    pub bucket_group: String,
    pub bucket: String,
    pub total: usize,
    pub wrong: usize,
    /// The wrong rate in percent, formatted.
    pub wrong_rate_percent: String,
}

/// One row of a table of wrong predictions.
pub struct RankedRowText {
    pub path: String,
    pub expected_label: String,
    pub predicted_label: String,
    /// The score margin, formatted.
    pub score_margin: String,
}

/// One row of the per-class accuracy table.
pub struct ClassRowText {
    pub class_name: String,
    pub correct: usize,
    pub total: usize,
    /// The accuracy in percent, formatted.
    pub accuracy_percent: String,
}

/// The prediction for a sample under one resize mode.
pub struct ResizeRowText {
    pub resize_mode: String,
    pub predicted_label: String,
    pub differs_from_artifact_prediction: bool,
    /// The score margin, formatted.
    pub score_margin: String,
}

/// A training example near a sample; shown only when its image was saved.
pub struct NeighborText {
    pub asset_path: Option<String>,
    pub label: String,
    /// The distance to the sample, formatted.
    pub distance: String,
}

/// The card of one selected sample.
pub struct SampleCardText {
    pub title: String,
    pub correct: bool,
    pub expected_label: String,
    pub predicted_label: String,
    /// The score margin, formatted.
    pub score_margin: String,
    pub brightness_bucket: String,
    pub contrast_bucket: String,
    pub width: u32,
    pub height: u32,
    /// The share of the image a center crop loses, in percent, formatted.
    pub crop_loss_percent: String,
    pub resize_predictions: Vec<ResizeRowText>,
    pub original_path: String,
    pub processed_path: String,
    pub nearest_neighbors: Vec<NeighborText>,
}

/// Everything the debug report page shows.
pub struct DebugReportText {
    pub model: String,
    pub image_features: String,
    pub image_resize: String,
    pub sample_count: usize,
    /// The accuracy in percent, formatted.
    pub accuracy_percent: String,
    pub summary: Vec<String>,
    pub buckets: Vec<BucketRowText>,
    pub high_confidence_wrong: Vec<RankedRowText>,
    pub ambiguous_wrong: Vec<RankedRowText>,
    pub resize_disagreements: Vec<ResizeDisagreement>,
    pub per_class_accuracy: Vec<ClassRowText>,
    pub confusion_matrix: Vec<ConfusionRow>,
    pub samples: Vec<SampleCardText>,
}

/// The pieces one after the other.
pub open spec fn concat_texts(parts: Seq<Seq<char>>) -> Seq<char>
    decreases parts.len(),
{
    if parts.len() == 0 {
        Seq::empty()
    } else {
        concat_texts(parts.drop_last()) + parts.last()
    }
}

/// The page head, its style sheet and the title.
pub open spec fn page_head() -> Seq<char> {
    "<!doctype html><html><head><meta charset=\"utf-8\"><title>PANN/PANC Image Debug Report</title><style>body{font-family:system-ui,-apple-system,Segoe UI,sans-serif;margin:24px;background:#f7f7f5;color:#222}h1,h2,h3{margin:0 0 12px}section{margin:24px 0}table{border-collapse:collapse;background:#fff}th,td{border:1px solid #ddd;padding:8px 10px;text-align:left;vertical-align:top}th{background:#eee}.cards{display:grid;grid-template-columns:repeat(auto-fill,minmax(360px,1fr));gap:16px}.card{background:#fff;border:1px solid #ddd;border-radius:6px;padding:12px}.images,.neighbors{display:grid;grid-template-columns:1fr 1fr;gap:8px}.images img,.neighbors img{width:100%;height:auto;border:1px solid #ddd;background:#888}.ok{color:#126b2f}.bad{color:#9b1c1c}.muted{color:#666}.metric{font-size:22px;font-weight:700}.pill{display:inline-block;background:#eee;border-radius:999px;padding:2px 8px;margin:2px}.summary{background:#fff;border-left:4px solid #444;padding:12px}</style></head><body><h1>PANN/PANC Image Debug Report</h1>"@
}

/// The table of the files a report directory holds.
pub open spec fn files_table() -> Seq<char> {
    "<section><h2>Files</h2><table><tr><th>File</th><th>Purpose</th></tr><tr><td><a href=\"config.json\">config.json</a></td><td>run configuration</td></tr><tr><td><a href=\"metrics.json\">metrics.json</a></td><td>summary metrics</td></tr><tr><td><a href=\"failure_analysis.json\">failure_analysis.json</a></td><td>interpreted failure analysis</td></tr><tr><td><a href=\"failure_buckets.csv\">failure_buckets.csv</a></td><td>failure rates by brightness/contrast/aspect/crop-loss bucket</td></tr><tr><td><a href=\"predictions.csv\">predictions.csv</a></td><td>all prediction rows</td></tr><tr><td><a href=\"predictions.json\">predictions.json</a></td><td>all prediction rows with scores</td></tr><tr><td><a href=\"per_class_accuracy.csv\">per_class_accuracy.csv</a></td><td>per-class accuracy</td></tr><tr><td><a href=\"confusion_matrix.csv\">confusion_matrix.csv</a></td><td>confusion matrix rows</td></tr></table></section>"@
}

#[verifier::opaque]
pub open spec fn summary_item(line: String) -> Seq<char> {
    "<li>"@ + html_text(line@) + "</li>"@
}

#[verifier::opaque]
pub open spec fn bucket_row(b: BucketRowText) -> Seq<char> {
    "<tr><td>"@ + html_text(b.bucket_group@) + "</td><td>"@ + html_text(b.bucket@) + "</td><td>"@
        + decimal_text(b.total as nat) + "</td><td>"@ + decimal_text(b.wrong as nat) + "</td><td>"@
        + b.wrong_rate_percent@ + "%</td></tr>"@
}

#[verifier::opaque]
pub open spec fn ranked_row(r: RankedRowText) -> Seq<char> {
    "<tr><td>"@ + html_text(r.path@) + "</td><td>"@ + html_text(r.expected_label@) + "</td><td>"@
        + html_text(r.predicted_label@) + "</td><td>"@ + r.score_margin@ + "</td></tr>"@
}

pub open spec fn ranked_table(rows: Seq<RankedRowText>) -> Seq<char> {
    "<table><tr><th>Sample</th><th>Expected</th><th>Predicted</th><th>Margin</th></tr>"@
        + concat_texts(rows.map_values(|r: RankedRowText| ranked_row(r))) + "</table>"@
}

#[verifier::opaque]
pub open spec fn disagreement_row(d: ResizeDisagreement) -> Seq<char> {
    "<tr><td>"@ + html_text(d.path@) + "</td><td>"@ + html_text(d.expected_label@) + "</td><td>"@
        + html_text(d.artifact_prediction@) + "</td><td>"@ + html_text(d.alternate_predictions@)
        + "</td></tr>"@
}

/// At most the first fifty disagreements, in a section shown only when
/// there is one.
pub open spec fn disagreement_section(ds: Seq<ResizeDisagreement>) -> Seq<char> {
    if ds.len() == 0 {
        Seq::empty()
    } else {
        "<section><h2>Resize Sensitivity</h2><table><tr><th>Sample</th><th>Expected</th><th>Artifact Prediction</th><th>Resize Predictions</th></tr>"@
            + concat_texts(
            (if ds.len() <= 50 {
                ds
            } else {
                ds.take(50)
            }).map_values(|d: ResizeDisagreement| disagreement_row(d)),
        ) + "</table></section>"@
    }
}

#[verifier::opaque]
pub open spec fn class_row(c: ClassRowText) -> Seq<char> {
    "<tr><td>"@ + html_text(c.class_name@) + "</td><td>"@ + decimal_text(c.correct as nat)
        + "</td><td>"@ + decimal_text(c.total as nat) + "</td><td>"@ + c.accuracy_percent@
        + "%</td></tr>"@
}

pub open spec fn confusion_cells(row: ConfusionRow) -> Seq<char> {
    join_with(row.predicted_counts@.map_values(|c: usize| decimal_text(c as nat)), " | "@)
}

#[verifier::opaque]
pub open spec fn confusion_row(row: ConfusionRow) -> Seq<char> {
    "<tr><td>"@ + html_text(row.actual_name@) + "</td><td>"@ + confusion_cells(row)
        + "</td></tr>"@
}

#[verifier::opaque]
pub open spec fn resize_row(p: ResizeRowText) -> Seq<char> {
    "<tr><td>"@ + html_text(p.resize_mode@) + "</td><td class=\""@ + (if p.differs_from_artifact_prediction {
        "bad"@
    } else {
        "muted"@
    }) + "\">"@ + html_text(p.predicted_label@) + "</td><td>"@ + p.score_margin@ + "</td></tr>"@
}

#[verifier::opaque]
pub open spec fn neighbor_figure(n: NeighborText) -> Seq<char> {
    match n.asset_path {
        Some(a) => "<figure><img src=\""@ + html_text(a@) + "\"><figcaption>"@ + html_text(n.label@)
            + " distance "@ + n.distance@ + "</figcaption></figure>"@,
        None => Seq::empty(),
    }
}

pub open spec fn card_heading(s: SampleCardText) -> Seq<char> {
    "<article class=\"card\"><h3>"@ + html_text(s.title@) + "</h3><p class=\""@ + (if s.correct {
        "ok"@
    } else {
        "bad"@
    }) + "\">"@ + (if s.correct {
        "correct"@
    } else {
        "wrong"@
    }) + ": expected "@ + html_text(s.expected_label@) + ", predicted "@ + html_text(
        s.predicted_label@,
    ) + ", margin "@ + s.score_margin@ + "</p><p><span class=\"pill\">"@ + html_text(
        s.brightness_bucket@,
    ) + "</span><span class=\"pill\">"@ + html_text(s.contrast_bucket@)
        + "</span><span class=\"pill\">"@ + decimal_text(s.width as nat) + "x"@ + decimal_text(
        s.height as nat,
    ) + "</span><span class=\"pill\">crop loss "@ + s.crop_loss_percent@ + "%</span></p>"@
}

pub open spec fn card_resizes(s: SampleCardText) -> Seq<char> {
    if s.resize_predictions@.len() == 0 {
        Seq::empty()
    } else {
        "<table><tr><th>Resize</th><th>Prediction</th><th>Margin</th></tr>"@ + concat_texts(
            s.resize_predictions@.map_values(|p: ResizeRowText| resize_row(p)),
        ) + "</table>"@
    }
}

pub open spec fn card_images(s: SampleCardText) -> Seq<char> {
    "<div class=\"images\"><figure><img src=\""@ + html_text(s.original_path@)
        + "\"><figcaption>original</figcaption></figure><figure><img src=\""@ + html_text(
        s.processed_path@,
    ) + "\"><figcaption>processed</figcaption></figure></div>"@
}

pub open spec fn card_neighbors(s: SampleCardText) -> Seq<char> {
    if s.nearest_neighbors@.len() == 0 {
        Seq::empty()
    } else {
        "<h4>Nearest Training Examples</h4><div class=\"neighbors\">"@ + concat_texts(
            s.nearest_neighbors@.map_values(|n: NeighborText| neighbor_figure(n)),
        ) + "</div>"@
    }
}

#[verifier::opaque]
pub open spec fn sample_card(s: SampleCardText) -> Seq<char> {
    card_heading(s) + card_resizes(s) + card_images(s) + card_neighbors(s) + "</article>"@
}

/// The run line and the accuracy line under the title.
pub open spec fn run_lines(r: DebugReportText) -> Seq<char> {
    "<p class=\"muted\">model="@ + html_text(r.model@) + " features="@ + html_text(
        r.image_features@,
    ) + " resize="@ + html_text(r.image_resize@) + " samples="@ + decimal_text(
        r.sample_count as nat,
    ) + "</p><p class=\"metric\">Accuracy: "@ + r.accuracy_percent@ + "%</p>"@
}

pub open spec fn summary_section(lines: Seq<String>) -> Seq<char> {
    "<section class=\"summary\"><h2>What This Says</h2><ul>"@ + concat_texts(
        lines.map_values(|l: String| summary_item(l)),
    ) + "</ul></section>"@
}

pub open spec fn bucket_section(rows: Seq<BucketRowText>) -> Seq<char> {
    "<section><h2>Failure Buckets</h2><table><tr><th>Group</th><th>Bucket</th><th>Total</th><th>Wrong</th><th>Wrong Rate</th></tr>"@
        + concat_texts(rows.map_values(|b: BucketRowText| bucket_row(b))) + "</table></section>"@
}

pub open spec fn wrong_sections(r: DebugReportText) -> Seq<char> {
    "<section><h2>High-Confidence Wrong</h2>"@ + ranked_table(r.high_confidence_wrong@)
        + "</section><section><h2>Ambiguous Wrong</h2>"@ + ranked_table(r.ambiguous_wrong@)
        + "</section>"@
}

pub open spec fn class_section(rows: Seq<ClassRowText>) -> Seq<char> {
    "<section><h2>Per-Class Accuracy</h2><table><tr><th>Class</th><th>Correct</th><th>Total</th><th>Accuracy</th></tr>"@
        + concat_texts(rows.map_values(|c: ClassRowText| class_row(c))) + "</table></section>"@
}

pub open spec fn confusion_section(rows: Seq<ConfusionRow>) -> Seq<char> {
    "<section><h2>Confusion Matrix</h2><table><tr><th>Actual</th><th>Predicted Counts</th></tr>"@
        + concat_texts(rows.map_values(|row: ConfusionRow| confusion_row(row)))
        + "</table></section>"@
}

pub open spec fn samples_section(cards: Seq<SampleCardText>) -> Seq<char> {
    "<section><h2>Selected Samples</h2><div class=\"cards\">"@ + concat_texts(
        cards.map_values(|s: SampleCardText| sample_card(s)),
    ) + "</div></section></body></html>"@
}

/// The whole page.
pub open spec fn index_html_text(r: DebugReportText) -> Seq<char> {
    page_head() + run_lines(r) + summary_section(r.summary@) + files_table() + bucket_section(
        r.buckets@,
    ) + wrong_sections(r) + disagreement_section(r.resize_disagreements@) + class_section(
        r.per_class_accuracy@,
    ) + confusion_section(r.confusion_matrix@) + samples_section(r.samples@)
}

fn push_escaped(out: &mut String, value: &String)
    ensures
        final(out)@ == old(out)@ + html_text(value@),
{
    let escaped = escape_html(value.as_str());
    out.append(escaped.as_str());
}

fn push_count(out: &mut String, n: usize)
    ensures
        final(out)@ == old(out)@ + decimal_text(n as nat),
{
    push_decimal(out, n as u64);
}

fn summary_item_html(line: &String) -> (r: String)
    ensures
        r@ == summary_item(*line),
{
    let mut out = String::new();
    out.append("<li>");
    push_escaped(&mut out, line);
    out.append("</li>");
    proof {
        reveal(summary_item);
    }
    assert(out@ =~= summary_item(*line));
    out
}

fn bucket_row_html(b: &BucketRowText) -> (r: String)
    ensures
        r@ == bucket_row(*b),
{
    let mut out = String::new();
    out.append("<tr><td>");
    push_escaped(&mut out, &b.bucket_group);
    out.append("</td><td>");
    push_escaped(&mut out, &b.bucket);
    out.append("</td><td>");
    push_count(&mut out, b.total);
    out.append("</td><td>");
    push_count(&mut out, b.wrong);
    out.append("</td><td>");
    out.append(b.wrong_rate_percent.as_str());
    out.append("%</td></tr>");
    proof {
        reveal(bucket_row);
    }
    assert(out@ =~= bucket_row(*b));
    out
}

fn ranked_row_html(r: &RankedRowText) -> (out_r: String)
    ensures
        out_r@ == ranked_row(*r),
{
    let mut out = String::new();
    out.append("<tr><td>");
    push_escaped(&mut out, &r.path);
    out.append("</td><td>");
    push_escaped(&mut out, &r.expected_label);
    out.append("</td><td>");
    push_escaped(&mut out, &r.predicted_label);
    out.append("</td><td>");
    out.append(r.score_margin.as_str());
    out.append("</td></tr>");
    proof {
        reveal(ranked_row);
    }
    assert(out@ =~= ranked_row(*r));
    out
}

fn disagreement_row_html(d: &ResizeDisagreement) -> (r: String)
    ensures
        r@ == disagreement_row(*d),
{
    let mut out = String::new();
    out.append("<tr><td>");
    push_escaped(&mut out, &d.path);
    out.append("</td><td>");
    push_escaped(&mut out, &d.expected_label);
    out.append("</td><td>");
    push_escaped(&mut out, &d.artifact_prediction);
    out.append("</td><td>");
    push_escaped(&mut out, &d.alternate_predictions);
    out.append("</td></tr>");
    proof {
        reveal(disagreement_row);
    }
    assert(out@ =~= disagreement_row(*d));
    out
}

fn class_row_html(c: &ClassRowText) -> (r: String)
    ensures
        r@ == class_row(*c),
{
    let mut out = String::new();
    out.append("<tr><td>");
    push_escaped(&mut out, &c.class_name);
    out.append("</td><td>");
    push_count(&mut out, c.correct);
    out.append("</td><td>");
    push_count(&mut out, c.total);
    out.append("</td><td>");
    out.append(c.accuracy_percent.as_str());
    out.append("%</td></tr>");
    proof {
        reveal(class_row);
    }
    assert(out@ =~= class_row(*c));
    out
}

fn confusion_row_html(row: &ConfusionRow) -> (r: String)
    ensures
        r@ == confusion_row(*row),
{
    let mut out = String::new();
    out.append("<tr><td>");
    push_escaped(&mut out, &row.actual_name);
    out.append("</td><td>");
    let cells = confusion_cells_html(row);
    out.append(cells.as_str());
    out.append("</td></tr>");
    proof {
        reveal(confusion_row);
    }
    assert(out@ =~= confusion_row(*row));
    out
}

fn resize_row_html(p: &ResizeRowText) -> (r: String)
    ensures
        r@ == resize_row(*p),
{
    let mut out = String::new();
    out.append("<tr><td>");
    push_escaped(&mut out, &p.resize_mode);
    out.append("</td><td class=\"");
    if p.differs_from_artifact_prediction {
        out.append("bad");
    } else {
        out.append("muted");
    }
    out.append("\">");
    push_escaped(&mut out, &p.predicted_label);
    out.append("</td><td>");
    out.append(p.score_margin.as_str());
    out.append("</td></tr>");
    proof {
        reveal(resize_row);
    }
    assert(out@ =~= resize_row(*p));
    out
}

fn neighbor_figure_html(n: &NeighborText) -> (r: String)
    ensures
        r@ == neighbor_figure(*n),
{
    let mut out = String::new();
    match &n.asset_path {
        Some(a) => {
            out.append("<figure><img src=\"");
            push_escaped(&mut out, a);
            out.append("\"><figcaption>");
            push_escaped(&mut out, &n.label);
            out.append(" distance ");
            out.append(n.distance.as_str());
            out.append("</figcaption></figure>");
        },
        None => {},
    }
    proof {
        reveal(neighbor_figure);
    }
    assert(out@ =~= neighbor_figure(*n));
    out
}

fn summary_html(lines: &Vec<String>) -> (r: String)
    ensures
        r@ == summary_section(lines@),
{
    let mut out = String::new();
    out.append("<section class=\"summary\"><h2>What This Says</h2><ul>");
    let ghost start = out@;
    let mut i: usize = 0;
    while i < lines.len()
        invariant
            i <= lines@.len(),
            out@ == start + concat_texts(lines@.take(i as int).map_values(|l: String| summary_item(l))),
        decreases lines@.len() - i,
    {
        let ghost before = out@;
        let item = summary_item_html(&lines[i]);
        out.append(item.as_str());
        proof {
            let parts = lines@.take(i + 1).map_values(|l: String| summary_item(l));
            assert(parts.drop_last() =~= lines@.take(i as int).map_values(|l: String| summary_item(l)));
            assert(out@ =~= before + summary_item(lines@[i as int]));
            assert(out@ =~= start + concat_texts(parts));
        }
        i = i + 1;
    }
    assert(lines@.take(i as int) =~= lines@);
    out.append("</ul></section>");
    out
}

fn bucket_html(rows: &Vec<BucketRowText>) -> (r: String)
    ensures
        r@ == bucket_section(rows@),
{
    let mut out = String::new();
    out.append("<section><h2>Failure Buckets</h2><table><tr><th>Group</th><th>Bucket</th><th>Total</th><th>Wrong</th><th>Wrong Rate</th></tr>");
    let ghost start = out@;
    let mut i: usize = 0;
    while i < rows.len()
        invariant
            i <= rows@.len(),
            out@ == start + concat_texts(rows@.take(i as int).map_values(|b: BucketRowText| bucket_row(b))),
        decreases rows@.len() - i,
    {
        let ghost before = out@;
        let row = bucket_row_html(&rows[i]);
        out.append(row.as_str());
        proof {
            let parts = rows@.take(i + 1).map_values(|b: BucketRowText| bucket_row(b));
            assert(parts.drop_last() =~= rows@.take(i as int).map_values(|b: BucketRowText| bucket_row(b)));
            assert(out@ =~= before + bucket_row(rows@[i as int]));
            assert(out@ =~= start + concat_texts(parts));
        }
        i = i + 1;
    }
    assert(rows@.take(i as int) =~= rows@);
    out.append("</table></section>");
    out
}

fn ranked_html(rows: &Vec<RankedRowText>) -> (r: String)
    ensures
        r@ == ranked_table(rows@),
{
    let mut out = String::new();
    out.append("<table><tr><th>Sample</th><th>Expected</th><th>Predicted</th><th>Margin</th></tr>");
    let ghost start = out@;
    let mut i: usize = 0;
    while i < rows.len()
        invariant
            i <= rows@.len(),
            out@ == start + concat_texts(rows@.take(i as int).map_values(|r: RankedRowText| ranked_row(r))),
        decreases rows@.len() - i,
    {
        let ghost before = out@;
        let row = ranked_row_html(&rows[i]);
        out.append(row.as_str());
        proof {
            let parts = rows@.take(i + 1).map_values(|r: RankedRowText| ranked_row(r));
            assert(parts.drop_last() =~= rows@.take(i as int).map_values(|r: RankedRowText| ranked_row(r)));
            assert(out@ =~= before + ranked_row(rows@[i as int]));
            assert(out@ =~= start + concat_texts(parts));
        }
        i = i + 1;
    }
    assert(rows@.take(i as int) =~= rows@);
    out.append("</table>");
    out
}

fn disagreement_html(ds: &Vec<ResizeDisagreement>) -> (r: String)
    ensures
        r@ == disagreement_section(ds@),
{
    let mut out = String::new();
    if ds.len() == 0 {
        return out;
    }
    out.append("<section><h2>Resize Sensitivity</h2><table><tr><th>Sample</th><th>Expected</th><th>Artifact Prediction</th><th>Resize Predictions</th></tr>");
    let ghost start = out@;
    let ghost shown = if ds@.len() <= 50 {
        ds@
    } else {
        ds@.take(50)
    };
    let n = if ds.len() <= 50 {
        ds.len()
    } else {
        50
    };
    assert(shown.len() == n);
    let mut i: usize = 0;
    while i < n
        invariant
            i <= n,
            n == shown.len(),
            n <= ds@.len(),
            forall|t: int| 0 <= t < n ==> shown[t] == ds@[t],
            out@ == start + concat_texts(shown.take(i as int).map_values(|d: ResizeDisagreement| disagreement_row(d))),
        decreases n - i,
    {
        let ghost before = out@;
        let row = disagreement_row_html(&ds[i]);
        out.append(row.as_str());
        proof {
            let parts = shown.take(i + 1).map_values(|d: ResizeDisagreement| disagreement_row(d));
            assert(parts.drop_last() =~= shown.take(i as int).map_values(|d: ResizeDisagreement| disagreement_row(d)));
            assert(out@ =~= before + disagreement_row(shown[i as int]));
            assert(out@ =~= start + concat_texts(parts));
        }
        i = i + 1;
    }
    assert(shown.take(i as int) =~= shown);
    out.append("</table></section>");
    out
}

fn class_html(rows: &Vec<ClassRowText>) -> (r: String)
    ensures
        r@ == class_section(rows@),
{
    let mut out = String::new();
    out.append("<section><h2>Per-Class Accuracy</h2><table><tr><th>Class</th><th>Correct</th><th>Total</th><th>Accuracy</th></tr>");
    let ghost start = out@;
    let mut i: usize = 0;
    while i < rows.len()
        invariant
            i <= rows@.len(),
            out@ == start + concat_texts(rows@.take(i as int).map_values(|c: ClassRowText| class_row(c))),
        decreases rows@.len() - i,
    {
        let ghost before = out@;
        let row = class_row_html(&rows[i]);
        out.append(row.as_str());
        proof {
            let parts = rows@.take(i + 1).map_values(|c: ClassRowText| class_row(c));
            assert(parts.drop_last() =~= rows@.take(i as int).map_values(|c: ClassRowText| class_row(c)));
            assert(out@ =~= before + class_row(rows@[i as int]));
            assert(out@ =~= start + concat_texts(parts));
        }
        i = i + 1;
    }
    assert(rows@.take(i as int) =~= rows@);
    out.append("</table></section>");
    out
}

fn confusion_cells_html(row: &ConfusionRow) -> (r: String)
    ensures
        r@ == confusion_cells(*row),
{
    let mut out = String::new();
    let counts = &row.predicted_counts;
    let mut i: usize = 0;
    while i < counts.len()
        invariant
            i <= counts@.len(),
            counts@ == row.predicted_counts@,
            out@ == join_with(counts@.take(i as int).map_values(|c: usize| decimal_text(c as nat)), " | "@),
        decreases counts@.len() - i,
    {
        let ghost before = out@;
        if i > 0 {
            out.append(" | ");
        }
        push_count(&mut out, counts[i]);
        proof {
            let parts = counts@.take(i + 1).map_values(|c: usize| decimal_text(c as nat));
            assert(parts.drop_last() =~= counts@.take(i as int).map_values(|c: usize| decimal_text(c as nat)));
            assert(out@ =~= join_with(parts, " | "@));
        }
        i = i + 1;
    }
    assert(counts@.take(i as int) =~= counts@);
    out
}

fn confusion_html(rows: &Vec<ConfusionRow>) -> (r: String)
    ensures
        r@ == confusion_section(rows@),
{
    let mut out = String::new();
    out.append("<section><h2>Confusion Matrix</h2><table><tr><th>Actual</th><th>Predicted Counts</th></tr>");
    let ghost start = out@;
    let mut i: usize = 0;
    while i < rows.len()
        invariant
            i <= rows@.len(),
            out@ == start + concat_texts(rows@.take(i as int).map_values(|row: ConfusionRow| confusion_row(row))),
        decreases rows@.len() - i,
    {
        let ghost before = out@;
        let row = confusion_row_html(&rows[i]);
        out.append(row.as_str());
        proof {
            let parts = rows@.take(i + 1).map_values(|row: ConfusionRow| confusion_row(row));
            assert(parts.drop_last() =~= rows@.take(i as int).map_values(|row: ConfusionRow| confusion_row(row)));
            assert(out@ =~= before + confusion_row(rows@[i as int]));
            assert(out@ =~= start + concat_texts(parts));
        }
        i = i + 1;
    }
    assert(rows@.take(i as int) =~= rows@);
    out.append("</table></section>");
    out
}

fn card_heading_html(s: &SampleCardText) -> (r: String)
    ensures
        r@ == card_heading(*s),
{
    let mut out = String::new();
    out.append("<article class=\"card\"><h3>");
    push_escaped(&mut out, &s.title);
    out.append("</h3><p class=\"");
    if s.correct {
        out.append("ok");
    } else {
        out.append("bad");
    }
    out.append("\">");
    if s.correct {
        out.append("correct");
    } else {
        out.append("wrong");
    }
    out.append(": expected ");
    push_escaped(&mut out, &s.expected_label);
    out.append(", predicted ");
    push_escaped(&mut out, &s.predicted_label);
    out.append(", margin ");
    out.append(s.score_margin.as_str());
    out.append("</p><p><span class=\"pill\">");
    push_escaped(&mut out, &s.brightness_bucket);
    out.append("</span><span class=\"pill\">");
    push_escaped(&mut out, &s.contrast_bucket);
    out.append("</span><span class=\"pill\">");
    push_count(&mut out, s.width as usize);
    out.append("x");
    push_count(&mut out, s.height as usize);
    out.append("</span><span class=\"pill\">crop loss ");
    out.append(s.crop_loss_percent.as_str());
    out.append("%</span></p>");
    assert(out@ =~= card_heading(*s));
    out
}

fn card_resizes_html(s: &SampleCardText) -> (r: String)
    ensures
        r@ == card_resizes(*s),
{
    let mut out = String::new();
    let rows = &s.resize_predictions;
    if rows.len() == 0 {
        return out;
    }
    out.append("<table><tr><th>Resize</th><th>Prediction</th><th>Margin</th></tr>");
    let ghost start = out@;
    let mut i: usize = 0;
    while i < rows.len()
        invariant
            i <= rows@.len(),
            rows@ == s.resize_predictions@,
            out@ == start + concat_texts(rows@.take(i as int).map_values(|p: ResizeRowText| resize_row(p))),
        decreases rows@.len() - i,
    {
        let ghost before = out@;
        let row = resize_row_html(&rows[i]);
        out.append(row.as_str());
        proof {
            let parts = rows@.take(i + 1).map_values(|p: ResizeRowText| resize_row(p));
            assert(parts.drop_last() =~= rows@.take(i as int).map_values(|p: ResizeRowText| resize_row(p)));
            assert(out@ =~= before + resize_row(rows@[i as int]));
            assert(out@ =~= start + concat_texts(parts));
        }
        i = i + 1;
    }
    assert(rows@.take(i as int) =~= rows@);
    out.append("</table>");
    out
}

fn card_images_html(s: &SampleCardText) -> (r: String)
    ensures
        r@ == card_images(*s),
{
    let mut out = String::new();
    out.append("<div class=\"images\"><figure><img src=\"");
    push_escaped(&mut out, &s.original_path);
    out.append("\"><figcaption>original</figcaption></figure><figure><img src=\"");
    push_escaped(&mut out, &s.processed_path);
    out.append("\"><figcaption>processed</figcaption></figure></div>");
    assert(out@ =~= card_images(*s));
    out
}

fn card_neighbors_html(s: &SampleCardText) -> (r: String)
    ensures
        r@ == card_neighbors(*s),
{
    let mut out = String::new();
    let ns = &s.nearest_neighbors;
    if ns.len() == 0 {
        return out;
    }
    out.append("<h4>Nearest Training Examples</h4><div class=\"neighbors\">");
    let ghost start = out@;
    let mut i: usize = 0;
    while i < ns.len()
        invariant
            i <= ns@.len(),
            ns@ == s.nearest_neighbors@,
            out@ == start + concat_texts(ns@.take(i as int).map_values(|n: NeighborText| neighbor_figure(n))),
        decreases ns@.len() - i,
    {
        let ghost before = out@;
        let figure = neighbor_figure_html(&ns[i]);
        out.append(figure.as_str());
        proof {
            let parts = ns@.take(i + 1).map_values(|n: NeighborText| neighbor_figure(n));
            assert(parts.drop_last() =~= ns@.take(i as int).map_values(|n: NeighborText| neighbor_figure(n)));
            assert(out@ =~= before + neighbor_figure(ns@[i as int]));
            assert(out@ =~= start + concat_texts(parts));
        }
        i = i + 1;
    }
    assert(ns@.take(i as int) =~= ns@);
    out.append("</div>");
    out
}

fn card_html(s: &SampleCardText) -> (r: String)
    ensures
        r@ == sample_card(*s),
{
    let mut out = card_heading_html(s);
    let resizes = card_resizes_html(s);
    out.append(resizes.as_str());
    let images = card_images_html(s);
    out.append(images.as_str());
    let neighbors = card_neighbors_html(s);
    out.append(neighbors.as_str());
    out.append("</article>");
    proof {
        reveal(sample_card);
    }
    assert(out@ =~= sample_card(*s));
    out
}

fn samples_html(cards: &Vec<SampleCardText>) -> (r: String)
    ensures
        r@ == samples_section(cards@),
{
    let mut out = String::new();
    out.append("<section><h2>Selected Samples</h2><div class=\"cards\">");
    let ghost start = out@;
    let mut i: usize = 0;
    while i < cards.len()
        invariant
            i <= cards@.len(),
            out@ == start + concat_texts(cards@.take(i as int).map_values(|s: SampleCardText| sample_card(s))),
        decreases cards@.len() - i,
    {
        let ghost before = out@;
        let card = card_html(&cards[i]);
        out.append(card.as_str());
        proof {
            let parts = cards@.take(i + 1).map_values(|s: SampleCardText| sample_card(s));
            assert(parts.drop_last() =~= cards@.take(i as int).map_values(|s: SampleCardText| sample_card(s)));
            assert(out@ =~= before + sample_card(cards@[i as int]));
            assert(out@ =~= start + concat_texts(parts));
        }
        i = i + 1;
    }
    assert(cards@.take(i as int) =~= cards@);
    out.append("</div></section></body></html>");
    out
}

/// The debug report page, as `index_html_text` states.
pub fn index_html(report: &DebugReportText) -> (r: String)
    ensures
        r@ == index_html_text(*report),
{
    let mut out = String::new();
    out.append("<!doctype html><html><head><meta charset=\"utf-8\"><title>PANN/PANC Image Debug Report</title><style>body{font-family:system-ui,-apple-system,Segoe UI,sans-serif;margin:24px;background:#f7f7f5;color:#222}h1,h2,h3{margin:0 0 12px}section{margin:24px 0}table{border-collapse:collapse;background:#fff}th,td{border:1px solid #ddd;padding:8px 10px;text-align:left;vertical-align:top}th{background:#eee}.cards{display:grid;grid-template-columns:repeat(auto-fill,minmax(360px,1fr));gap:16px}.card{background:#fff;border:1px solid #ddd;border-radius:6px;padding:12px}.images,.neighbors{display:grid;grid-template-columns:1fr 1fr;gap:8px}.images img,.neighbors img{width:100%;height:auto;border:1px solid #ddd;background:#888}.ok{color:#126b2f}.bad{color:#9b1c1c}.muted{color:#666}.metric{font-size:22px;font-weight:700}.pill{display:inline-block;background:#eee;border-radius:999px;padding:2px 8px;margin:2px}.summary{background:#fff;border-left:4px solid #444;padding:12px}</style></head><body><h1>PANN/PANC Image Debug Report</h1>");
    out.append("<p class=\"muted\">model=");
    push_escaped(&mut out, &report.model);
    out.append(" features=");
    push_escaped(&mut out, &report.image_features);
    out.append(" resize=");
    push_escaped(&mut out, &report.image_resize);
    out.append(" samples=");
    push_count(&mut out, report.sample_count);
    out.append("</p><p class=\"metric\">Accuracy: ");
    out.append(report.accuracy_percent.as_str());
    out.append("%</p>");
    assert(out@ =~= page_head() + run_lines(*report));
    let ghost head = out@;
    let summary = summary_html(&report.summary);
    out.append(summary.as_str());
    out.append("<section><h2>Files</h2><table><tr><th>File</th><th>Purpose</th></tr><tr><td><a href=\"config.json\">config.json</a></td><td>run configuration</td></tr><tr><td><a href=\"metrics.json\">metrics.json</a></td><td>summary metrics</td></tr><tr><td><a href=\"failure_analysis.json\">failure_analysis.json</a></td><td>interpreted failure analysis</td></tr><tr><td><a href=\"failure_buckets.csv\">failure_buckets.csv</a></td><td>failure rates by brightness/contrast/aspect/crop-loss bucket</td></tr><tr><td><a href=\"predictions.csv\">predictions.csv</a></td><td>all prediction rows</td></tr><tr><td><a href=\"predictions.json\">predictions.json</a></td><td>all prediction rows with scores</td></tr><tr><td><a href=\"per_class_accuracy.csv\">per_class_accuracy.csv</a></td><td>per-class accuracy</td></tr><tr><td><a href=\"confusion_matrix.csv\">confusion_matrix.csv</a></td><td>confusion matrix rows</td></tr></table></section>");
    let buckets = bucket_html(&report.buckets);
    out.append(buckets.as_str());
    out.append("<section><h2>High-Confidence Wrong</h2>");
    let high = ranked_html(&report.high_confidence_wrong);
    out.append(high.as_str());
    out.append("</section><section><h2>Ambiguous Wrong</h2>");
    let ambiguous = ranked_html(&report.ambiguous_wrong);
    out.append(ambiguous.as_str());
    out.append("</section>");
    let ghost middle = out@;
    assert(middle =~= head + summary_section(report.summary@) + files_table() + bucket_section(
        report.buckets@,
    ) + wrong_sections(*report));
    let resize = disagreement_html(&report.resize_disagreements);
    out.append(resize.as_str());
    let classes = class_html(&report.per_class_accuracy);
    out.append(classes.as_str());
    let confusion = confusion_html(&report.confusion_matrix);
    out.append(confusion.as_str());
    let cards = samples_html(&report.samples);
    out.append(cards.as_str());
    assert(out@ =~= index_html_text(*report));
    out
}

} // verus!
