//! Failure analysis of an evaluation: the most common confusion, the samples
//! a debug report shows, confidence counts and resize-mode disagreements.
use vstd::prelude::*;
use vstd::string::StringExecFns;

use crate::cli::DebugSamples;
use crate::metrics::{append_unique, cell_before, join_with, push_unique_indices, ConfusionRow};
use crate::text::{decimal_text, push_decimal, str_eq, string_of};

verus! {

/// A confusion: how many samples of one class were predicted as another.
pub struct ConfusionFinding {
    pub actual_name: String,
    pub predicted_name: String,
    pub count: usize,
}

/// Cell `c` of row `r` is off the diagonal (its count may be zero).
pub open spec fn is_off_diagonal(rows: Seq<ConfusionRow>, r: int, c: int) -> bool {
    &&& 0 <= r < rows.len()
    &&& 0 <= c < rows[r].predicted_counts@.len()
    &&& c != rows[r].actual_index
}

/// Name of class `c` among the rows' classes, `class-<c>` past them.
pub open spec fn row_class_name(rows: Seq<ConfusionRow>, c: int) -> Seq<char> {
    if 0 <= c < rows.len() {
        rows[c].actual_name@
    } else {
        "class-"@ + decimal_text(c as nat)
    }
}

/// The off-diagonal cell with the largest count, the last such cell in
/// row-major order when several share it; `None` when there is no
/// off-diagonal cell.
pub fn most_common_confusion(rows: &[ConfusionRow]) -> (r: Option<ConfusionFinding>)
    ensures
        (forall|r1: int, c1: int| !#[trigger] is_off_diagonal(rows@, r1, c1)) ==> r is None,
        (exists|r1: int, c1: int| #[trigger] is_off_diagonal(rows@, r1, c1)) ==> r is Some && exists|
            r0: int,
            c0: int,
        | {
            &&& #[trigger] is_off_diagonal(rows@, r0, c0)
            &&& r->0.count == rows@[r0].predicted_counts@[c0]
            &&& r->0.actual_name@ == rows@[r0].actual_name@
            &&& r->0.predicted_name@ == row_class_name(rows@, c0)
            &&& forall|r1: int, c1: int|
                #[trigger] is_off_diagonal(rows@, r1, c1) ==> rows@[r1].predicted_counts@[c1]
                    <= rows@[r0].predicted_counts@[c0] && (cell_before(r0, c0, r1, c1)
                    ==> rows@[r1].predicted_counts@[c1] < rows@[r0].predicted_counts@[c0])
        },
{
    let mut best: Option<ConfusionFinding> = None;
    let ghost mut br: int = 0;
    let ghost mut bc: int = 0;
    let mut ri: usize = 0;
    while ri < rows.len()
        invariant
            ri <= rows@.len(),
            best is None ==> forall|r1: int, c1: int|
                r1 < ri ==> !#[trigger] is_off_diagonal(rows@, r1, c1),
            best is Some ==> {
                &&& is_off_diagonal(rows@, br, bc)
                &&& br < ri
                &&& best->0.count == rows@[br].predicted_counts@[bc]
                &&& best->0.actual_name@ == rows@[br].actual_name@
                &&& best->0.predicted_name@ == row_class_name(rows@, bc)
                &&& forall|r1: int, c1: int|
                    r1 < ri && #[trigger] is_off_diagonal(rows@, r1, c1)
                        ==> rows@[r1].predicted_counts@[c1] <= rows@[br].predicted_counts@[bc] && (
                    cell_before(br, bc, r1, c1) ==> rows@[r1].predicted_counts@[c1]
                        < rows@[br].predicted_counts@[bc])
            },
        decreases rows@.len() - ri,
    {
        let row = &rows[ri];
        let mut ci: usize = 0;
        while ci < row.predicted_counts.len()
            invariant
                ri < rows@.len(),
                *row == rows@[ri as int],
                ci <= row.predicted_counts@.len(),
                best is None ==> forall|r1: int, c1: int|
                    cell_before(r1, c1, ri as int, ci as int) ==> !#[trigger] is_off_diagonal(
                        rows@,
                        r1,
                        c1,
                    ),
                best is Some ==> {
                    &&& is_off_diagonal(rows@, br, bc)
                    &&& cell_before(br, bc, ri as int, ci as int)
                    &&& best->0.count == rows@[br].predicted_counts@[bc]
                    &&& best->0.actual_name@ == rows@[br].actual_name@
                    &&& best->0.predicted_name@ == row_class_name(rows@, bc)
                    &&& forall|r1: int, c1: int|
                        cell_before(r1, c1, ri as int, ci as int) && #[trigger] is_off_diagonal(
                            rows@,
                            r1,
                            c1,
                        ) ==> rows@[r1].predicted_counts@[c1] <= rows@[br].predicted_counts@[bc] && (
                        cell_before(br, bc, r1, c1) ==> rows@[r1].predicted_counts@[c1]
                            < rows@[br].predicted_counts@[bc])
                },
            decreases row.predicted_counts@.len() - ci,
        {
            let count = row.predicted_counts[ci];
            if ci != row.actual_index {
                let take = match &best {
                    None => true,
                    Some(found) => count >= found.count,
                };
                if take {
                    let predicted_name = if ci < rows.len() {
                        rows[ci].actual_name.clone()
                    } else {
                        let mut name = string_of("class-");
                        push_decimal(&mut name, ci as u64);
                        name
                    };
                    best = Some(
                        ConfusionFinding {
                            actual_name: row.actual_name.clone(),
                            predicted_name,
                            count,
                        },
                    );
                    proof {
                        br = ri as int;
                        bc = ci as int;
                    }
                }
            }
            ci = ci + 1;
        }
        ri = ri + 1;
    }
    best
}

/// The positions whose flag equals `want`, in order.
pub open spec fn positions_where(flags: Seq<bool>, want: bool) -> Seq<usize>
    decreases flags.len(),
{
    if flags.len() == 0 {
        Seq::empty()
    } else if flags.last() == want {
        positions_where(flags.drop_last(), want).push((flags.len() - 1) as usize)
    } else {
        positions_where(flags.drop_last(), want)
    }
}

/// The first `n` items, or all of them when there are fewer.
pub open spec fn first_n(s: Seq<usize>, n: int) -> Seq<usize> {
    if s.len() <= n {
        s
    } else {
        s.take(n)
    }
}

/// The misclassified samples a debug report shows, at most `limit`: half
/// the limit (at least one) of the most confidently wrong, then the most
/// ambiguous ones up to the limit, then the other wrong ones in order, each
/// once. `by_confidence` and `by_ambiguity` are the wrong samples ordered by
/// decreasing and by increasing score margin.
pub open spec fn misclassified_selection(
    by_confidence: Seq<usize>,
    by_ambiguity: Seq<usize>,
    wrong: Seq<usize>,
    limit: int,
) -> Seq<usize> {
    let quota = if limit / 2 < 1 {
        1
    } else {
        limit / 2
    };
    let first = append_unique(Seq::empty(), first_n(by_confidence, quota));
    let remaining = if limit > first.len() {
        limit - first.len()
    } else {
        0
    };
    let second = append_unique(first, first_n(by_ambiguity, remaining));
    first_n(append_unique(second, wrong), limit)
}

fn first_items(s: &[usize], n: usize) -> (r: Vec<usize>)
    ensures
        r@ == first_n(s@, n as int),
{
    let mut out: Vec<usize> = Vec::new();
    let mut i: usize = 0;
    while i < s.len() && i < n
        invariant
            i <= s@.len(),
            i <= n,
            out@ == s@.take(i as int),
        decreases s@.len() - i,
    {
        out.push(s[i]);
        i = i + 1;
        assert(out@ =~= s@.take(i as int));
    }
    assert(s@.len() <= n ==> s@.take(i as int) =~= s@);
    out
}

fn positions_of(flags: &[bool], want: bool) -> (r: Vec<usize>)
    ensures
        r@ == positions_where(flags@, want),
{
    let mut out: Vec<usize> = Vec::new();
    let mut i: usize = 0;
    while i < flags.len()
        invariant
            i <= flags@.len(),
            out@ == positions_where(flags@.take(i as int), want),
        decreases flags@.len() - i,
    {
        assert(flags@.take(i + 1).drop_last() =~= flags@.take(i as int));
        if flags[i] == want {
            out.push(i);
        }
        i = i + 1;
    }
    assert(flags@.take(i as int) =~= flags@);
    out
}

/// The misclassified samples a debug report shows, as
/// `misclassified_selection` states.
pub fn select_misclassified_indices(
    by_confidence: &[usize],
    by_ambiguity: &[usize],
    wrong: &[usize],
    limit: usize,
) -> (r: Vec<usize>)
    ensures
        r@ == misclassified_selection(by_confidence@, by_ambiguity@, wrong@, limit as int),
{
    let quota = if limit / 2 < 1 {
        1
    } else {
        limit / 2
    };
    let mut selected: Vec<usize> = Vec::new();
    let high = first_items(by_confidence, quota);
    push_unique_indices(&mut selected, high.as_slice());
    let remaining = if limit > selected.len() {
        limit - selected.len()
    } else {
        0
    };
    let ambiguous = first_items(by_ambiguity, remaining);
    push_unique_indices(&mut selected, ambiguous.as_slice());
    push_unique_indices(&mut selected, wrong);
    first_items(selected.as_slice(), limit)
}

/// The samples a debug report shows, at most `limit`: all samples in order,
/// the correct ones in order, or the misclassified ones as
/// `misclassified_selection` picks them.
pub open spec fn debug_selection(
    correct: Seq<bool>,
    samples: DebugSamples,
    limit: int,
    by_confidence: Seq<usize>,
    by_ambiguity: Seq<usize>,
) -> Seq<usize> {
    if limit == 0 {
        Seq::empty()
    } else {
        match samples {
            DebugSamples::All => Seq::new(
                if correct.len() < limit {
                    correct.len()
                } else {
                    limit as nat
                },
                |i: int| i as usize,
            ),
            DebugSamples::Correct => first_n(positions_where(correct, true), limit),
            DebugSamples::Misclassified => misclassified_selection(
                by_confidence,
                by_ambiguity,
                positions_where(correct, false),
                limit,
            ),
        }
    }
}

/// The samples a debug report shows, given whether each prediction is
/// correct and the wrong ones ordered by decreasing and increasing margin.
pub fn selected_prediction_indices(
    correct: &[bool],
    debug_samples: DebugSamples,
    limit: usize,
    by_confidence: &[usize],
    by_ambiguity: &[usize],
) -> (r: Vec<usize>)
    ensures
        r@ == debug_selection(correct@, debug_samples, limit as int, by_confidence@, by_ambiguity@),
{
    if limit == 0 {
        return Vec::new();
    }
    match debug_samples {
        DebugSamples::All => {
            let mut out: Vec<usize> = Vec::new();
            let mut i: usize = 0;
            while i < correct.len() && i < limit
                invariant
                    i <= correct@.len(),
                    i <= limit,
                    out@ == Seq::new(i as nat, |j: int| j as usize),
                decreases correct@.len() - i,
            {
                out.push(i);
                i = i + 1;
                assert(out@ =~= Seq::new(i as nat, |j: int| j as usize));
            }
            assert(out@ =~= Seq::new(
                if correct@.len() < limit {
                    correct@.len()
                } else {
                    limit as nat
                },
                |i: int| i as usize,
            ));
            out
        },
        DebugSamples::Correct => {
            let positions = positions_of(correct, true);
            first_items(positions.as_slice(), limit)
        },
        DebugSamples::Misclassified => {
            let wrong = positions_of(correct, false);
            select_misclassified_indices(by_confidence, by_ambiguity, wrong.as_slice(), limit)
        },
    }
}

/// What a report keeps of one evaluated sample.
pub struct SamplePrediction {
    pub sample_index: usize,
    pub path: String,
    pub expected_label: String,
    pub predicted_label: String,
}

/// The class predicted for a sample when its image is resized in one mode.
pub struct ResizeOutcome {
    pub resize_mode: String,
    pub predicted_index: usize,
    pub predicted_label: String,
    pub differs_from_artifact_prediction: bool,
}

/// The predictions for one sample under every resize mode.
pub struct SampleResizeComparison {
    pub sample_index: usize,
    pub predictions: Vec<ResizeOutcome>,
}

/// A sample whose predicted class changes with the resize mode.
pub struct ResizeDisagreement {
    pub sample_index: usize,
    pub path: String,
    pub expected_label: String,
    pub artifact_prediction: String,
    pub alternate_predictions: String,
}

impl View for ResizeDisagreement {
    type V = (usize, Seq<char>, Seq<char>, Seq<char>, Seq<char>);

    open spec fn view(&self) -> Self::V {
        (
            self.sample_index,
            self.path@,
            self.expected_label@,
            self.artifact_prediction@,
            self.alternate_predictions@,
        )
    }
}

/// How many predictions are wrong, and how many of those were made with a
/// large or with a small score margin.
pub struct ConfidenceSummary {
    pub wrong_total: usize,
    pub high_confidence_wrong: usize,
    pub ambiguous_wrong: usize,
}

/// Among the first `n` samples, those predicted wrongly whose flag is set.
pub open spec fn wrong_flagged(correct: Seq<bool>, flag: Seq<bool>, n: nat) -> nat
    decreases n,
{
    if n == 0 {
        0
    } else {
        wrong_flagged(correct, flag, (n - 1) as nat) + if !correct[n - 1] && flag[n - 1] {
            1nat
        } else {
            0nat
        }
    }
}

/// Counts the wrong predictions, and those of them whose margin was marked
/// large (`high_margin`) or small (`low_margin`).
pub fn confidence_summary(correct: &[bool], high_margin: &[bool], low_margin: &[bool]) -> (r:
    ConfidenceSummary)
    requires
        high_margin@.len() == correct@.len(),
        low_margin@.len() == correct@.len(),
    ensures
        r.wrong_total == wrong_flagged(
            correct@,
            Seq::new(correct@.len(), |i: int| true),
            correct@.len(),
        ),
        r.high_confidence_wrong == wrong_flagged(correct@, high_margin@, correct@.len()),
        r.ambiguous_wrong == wrong_flagged(correct@, low_margin@, correct@.len()),
{
    let ghost all = Seq::new(correct@.len(), |i: int| true);
    let mut wrong: usize = 0;
    let mut high: usize = 0;
    let mut ambiguous: usize = 0;
    let mut i: usize = 0;
    while i < correct.len()
        invariant
            i <= correct@.len(),
            high_margin@.len() == correct@.len(),
            low_margin@.len() == correct@.len(),
            all == Seq::new(correct@.len(), |i: int| true),
            wrong == wrong_flagged(correct@, all, i as nat),
            high == wrong_flagged(correct@, high_margin@, i as nat),
            ambiguous == wrong_flagged(correct@, low_margin@, i as nat),
            wrong <= i,
            high <= i,
            ambiguous <= i,
        decreases correct@.len() - i,
    {
        if !correct[i] {
            wrong = wrong + 1;
            if high_margin[i] {
                high = high + 1;
            }
            if low_margin[i] {
                ambiguous = ambiguous + 1;
            }
        }
        i = i + 1;
    }
    ConfidenceSummary { wrong_total: wrong, high_confidence_wrong: high, ambiguous_wrong: ambiguous }
}

/// Position of the first outcome of the given mode, `-1` when there is none.
pub open spec fn first_mode_position(outs: Seq<ResizeOutcome>, mode: Seq<char>) -> int
    decreases outs.len(),
{
    if outs.len() == 0 {
        -1
    } else if first_mode_position(outs.drop_last(), mode) >= 0 {
        first_mode_position(outs.drop_last(), mode)
    } else if outs.last().resize_mode@ == mode {
        outs.len() - 1
    } else {
        -1
    }
}

/// The class predicted under the configured mode; under the first mode
/// listed when the configured one is missing; 0 when nothing is listed.
pub open spec fn configured_prediction(outs: Seq<ResizeOutcome>, mode: Seq<char>) -> usize {
    let p = first_mode_position(outs, mode);
    if p >= 0 {
        outs[p].predicted_index
    } else if outs.len() > 0 {
        outs[0].predicted_index
    } else {
        0
    }
}

proof fn lemma_first_mode_position(outs: Seq<ResizeOutcome>, mode: Seq<char>, n: int)
    requires
        0 <= n <= outs.len(),
    ensures
        -1 <= first_mode_position(outs.take(n), mode) < n,
        first_mode_position(outs.take(n), mode) >= 0 ==> outs[first_mode_position(outs.take(n), mode)].resize_mode@ == mode,
        first_mode_position(outs.take(n), mode) >= 0 ==> first_mode_position(outs, mode) == first_mode_position(outs.take(n), mode),
        first_mode_position(outs.take(n), mode) < 0 ==> forall|j: int| 0 <= j < n ==> #[trigger] outs[j].resize_mode@ != mode,
    decreases n,
{
    if n > 0 {
        lemma_first_mode_position(outs, mode, n - 1);
        assert(outs.take(n).drop_last() =~= outs.take(n - 1));
    }
    if first_mode_position(outs.take(n), mode) >= 0 {
        lemma_first_mode_position_extends(outs, mode, n);
    }
}

proof fn lemma_first_mode_position_extends(outs: Seq<ResizeOutcome>, mode: Seq<char>, n: int)
    requires
        0 <= n <= outs.len(),
        first_mode_position(outs.take(n), mode) >= 0,
    ensures
        first_mode_position(outs, mode) == first_mode_position(outs.take(n), mode),
    decreases outs.len() - n,
{
    if n < outs.len() {
        assert(outs.take(n + 1).drop_last() =~= outs.take(n));
        lemma_first_mode_position_extends(outs, mode, n + 1);
    } else {
        assert(outs.take(n) =~= outs);
    }
}

/// The outcome with `differs_from_artifact_prediction` set as given, the
/// rest unchanged.
pub open spec fn marked(o: ResizeOutcome, differs: bool) -> ResizeOutcome {
    ResizeOutcome { differs_from_artifact_prediction: differs, ..o }
}

/// Marks each outcome whose predicted class differs from the one predicted
/// under the configured resize mode (see `configured_prediction`).
pub fn mark_resize_differences(predictions: &mut Vec<ResizeOutcome>, configured_mode: &str)
    ensures
        final(predictions)@.len() == old(predictions)@.len(),
        forall|i: int|
            0 <= i < old(predictions)@.len() ==> #[trigger] final(predictions)@[i] == marked(
                old(predictions)@[i],
                old(predictions)@[i].predicted_index != configured_prediction(
                    old(predictions)@,
                    configured_mode@,
                ),
            ),
{
    let ghost start = predictions@;
    let mut found: Option<usize> = None;
    let mut i: usize = 0;
    while i < predictions.len()
        invariant
            i <= predictions@.len(),
            predictions@ == start,
            found is Some ==> found->0 == configured_prediction(start, configured_mode@),
            found is None ==> first_mode_position(start.take(i as int), configured_mode@) < 0,
        decreases predictions@.len() - i,
    {
        proof {
            lemma_first_mode_position(start, configured_mode@, i as int);
            lemma_first_mode_position(start, configured_mode@, i + 1);
            assert(start.take(i + 1).drop_last() =~= start.take(i as int));
        }
        if found.is_none() && str_eq(predictions[i].resize_mode.as_str(), configured_mode) {
            found = Some(predictions[i].predicted_index);
        }
        i = i + 1;
    }
    proof {
        assert(start.take(i as int) =~= start);
    }
    let configured = match found {
        Some(index) => index,
        None => if predictions.len() > 0 {
            predictions[0].predicted_index
        } else {
            0
        },
    };
    let mut j: usize = 0;
    while j < predictions.len()
        invariant
            j <= predictions@.len(),
            predictions@.len() == start.len(),
            configured == configured_prediction(start, configured_mode@),
            forall|k: int|
                j <= k < start.len() ==> #[trigger] predictions@[k] == start[k],
            forall|k: int|
                0 <= k < j ==> #[trigger] predictions@[k] == marked(
                    start[k],
                    start[k].predicted_index != configured,
                ),
        decreases predictions@.len() - j,
    {
        let updated = ResizeOutcome {
            resize_mode: predictions[j].resize_mode.clone(),
            predicted_index: predictions[j].predicted_index,
            predicted_label: predictions[j].predicted_label.clone(),
            differs_from_artifact_prediction: predictions[j].predicted_index != configured,
        };
        predictions.set(j, updated);
        j = j + 1;
    }
}

/// Position of the last prediction for the sample, `-1` when there is none.
pub open spec fn last_sample_position(predictions: Seq<SamplePrediction>, sample: usize) -> int
    decreases predictions.len(),
{
    if predictions.len() == 0 {
        -1
    } else if predictions.last().sample_index == sample {
        predictions.len() - 1
    } else {
        last_sample_position(predictions.drop_last(), sample)
    }
}

/// `mode=label` for each resize mode, separated by `;`.
pub open spec fn alternates_text(outs: Seq<ResizeOutcome>) -> Seq<char> {
    join_with(
        outs.map_values(|o: ResizeOutcome| o.resize_mode@ + "="@ + o.predicted_label@),
        ";"@,
    )
}

/// The disagreement a comparison reports: none when no prediction of its
/// sample is known or when every mode agrees with the configured one.
pub open spec fn disagreement_of(
    predictions: Seq<SamplePrediction>,
    c: SampleResizeComparison,
) -> Option<(usize, Seq<char>, Seq<char>, Seq<char>, Seq<char>)> {
    let p = last_sample_position(predictions, c.sample_index);
    if p >= 0 && exists|i: int|
        0 <= i < c.predictions@.len() && (#[trigger] c.predictions@[i]).differs_from_artifact_prediction {
        let pr = predictions[p];
        Some(
            (
                pr.sample_index,
                pr.path@,
                pr.expected_label@,
                pr.predicted_label@,
                alternates_text(c.predictions@),
            ),
        )
    } else {
        None
    }
}

/// The disagreements of the comparisons, in the comparisons' order.
pub open spec fn disagreements(
    predictions: Seq<SamplePrediction>,
    comparisons: Seq<SampleResizeComparison>,
) -> Seq<(usize, Seq<char>, Seq<char>, Seq<char>, Seq<char>)>
    decreases comparisons.len(),
{
    if comparisons.len() == 0 {
        Seq::empty()
    } else {
        let before = disagreements(predictions, comparisons.drop_last());
        match disagreement_of(predictions, comparisons.last()) {
            Some(d) => before.push(d),
            None => before,
        }
    }
}

fn last_prediction_position(predictions: &[SamplePrediction], sample: usize) -> (r: Option<usize>)
    ensures
        match r {
            Some(p) => p as int == last_sample_position(predictions@, sample),
            None => last_sample_position(predictions@, sample) == -1,
        },
        last_sample_position(predictions@, sample) < predictions@.len(),
{
    let mut found: Option<usize> = None;
    let mut i: usize = 0;
    while i < predictions.len()
        invariant
            i <= predictions@.len(),
            match found {
                Some(p) => p as int == last_sample_position(predictions@.take(i as int), sample),
                None => last_sample_position(predictions@.take(i as int), sample) == -1,
            },
            -1 <= last_sample_position(predictions@.take(i as int), sample) < i,
        decreases predictions@.len() - i,
    {
        assert(predictions@.take(i + 1).drop_last() =~= predictions@.take(i as int));
        if predictions[i].sample_index == sample {
            found = Some(i);
        }
        i = i + 1;
    }
    assert(predictions@.take(i as int) =~= predictions@);
    found
}

fn alternate_predictions_text(outs: &Vec<ResizeOutcome>) -> (r: String)
    ensures
        r@ == alternates_text(outs@),
{
    let mut out = String::new();
    let mut i: usize = 0;
    while i < outs.len()
        invariant
            i <= outs@.len(),
            out@ == alternates_text(outs@.take(i as int)),
        decreases outs@.len() - i,
    {
        if i > 0 {
            out.append(";");
        }
        out.append(outs[i].resize_mode.as_str());
        out.append("=");
        out.append(outs[i].predicted_label.as_str());
        proof {
            reveal_strlit(";");
            reveal_strlit("=");
            let parts = outs@.take(i + 1).map_values(
                |o: ResizeOutcome| o.resize_mode@ + "="@ + o.predicted_label@,
            );
            assert(parts.drop_last() =~= outs@.take(i as int).map_values(
                |o: ResizeOutcome| o.resize_mode@ + "="@ + o.predicted_label@,
            ));
            assert(out@ =~= join_with(parts, ";"@));
        }
        i = i + 1;
    }
    assert(outs@.take(i as int) =~= outs@);
    out
}

/// The samples whose predicted class changes with the resize mode, one per
/// comparison in order, each described by the last prediction recorded for
/// its sample.
pub fn resize_disagreements(
    predictions: &[SamplePrediction],
    comparisons: &[SampleResizeComparison],
) -> (r: Vec<ResizeDisagreement>)
    ensures
        r@.map_values(|d: ResizeDisagreement| d@) == disagreements(predictions@, comparisons@),
{
    let mut out: Vec<ResizeDisagreement> = Vec::new();
    let mut i: usize = 0;
    while i < comparisons.len()
        invariant
            i <= comparisons@.len(),
            out@.map_values(|d: ResizeDisagreement| d@) == disagreements(
                predictions@,
                comparisons@.take(i as int),
            ),
        decreases comparisons@.len() - i,
    {
        let comparison = &comparisons[i];
        let ghost before = out@.map_values(|d: ResizeDisagreement| d@);
        assert(comparisons@.take(i + 1).drop_last() =~= comparisons@.take(i as int));
        let mut differs = false;
        let mut j: usize = 0;
        while j < comparison.predictions.len()
            invariant
                j <= comparison.predictions@.len(),
                differs == exists|t: int|
                    0 <= t < j && (#[trigger] comparison.predictions@[t]).differs_from_artifact_prediction,
            decreases comparison.predictions@.len() - j,
        {
            if comparison.predictions[j].differs_from_artifact_prediction {
                differs = true;
            }
            j = j + 1;
        }
        let position = last_prediction_position(predictions, comparison.sample_index);
        match position {
            Some(p) => {
                if differs {
                    let prediction = &predictions[p];
                    out.push(
                        ResizeDisagreement {
                            sample_index: prediction.sample_index,
                            path: prediction.path.clone(),
                            expected_label: prediction.expected_label.clone(),
                            artifact_prediction: prediction.predicted_label.clone(),
                            alternate_predictions: alternate_predictions_text(&comparison.predictions),
                        },
                    );
                    assert(out@.map_values(|d: ResizeDisagreement| d@) =~= before.push(
                        out@.last()@,
                    ));
                } else {
                    assert(out@.map_values(|d: ResizeDisagreement| d@) =~= before);
                }
            },
            None => {},
        }
        i = i + 1;
    }
    assert(comparisons@.take(i as int) =~= comparisons@);
    out
}

} // verus!
