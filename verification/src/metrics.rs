//! Counting of classification outcomes: per-class totals and hits, the
//! confusion matrix, and its most common confusion.
use vstd::prelude::*;
use vstd::string::StringExecFns;

use crate::bits::{count_where, lemma_count_where_bound, lemma_count_where_implies};
use crate::report::label_name;
use crate::text::{decimal_text, push_decimal, str_eq, string_of};

verus! {

/// One row of a confusion matrix: how often samples of class `actual_index`
/// were predicted as each class.
pub struct ConfusionRow {
    pub actual_index: usize,
    pub actual_name: String,
    pub predicted_counts: Vec<usize>,
}

/// Integer outcome counts of a classification run.
pub struct ClassificationCounts {
    /// Samples whose prediction equals the label.
    pub correct: usize,
    /// Samples counted: pairs of label and prediction.
    pub counted: usize,
    /// Samples labelled with each class.
    pub totals: Vec<usize>,
    /// Samples of each class predicted correctly.
    pub correct_by_class: Vec<usize>,
    /// One row per class.
    pub confusion_matrix: Vec<ConfusionRow>,
}

/// Sample `i` is labelled `a` and predicted `p`.
pub open spec fn pair_at(labels: Seq<usize>, predictions: Seq<usize>, a: int, p: int) -> spec_fn(
    int,
) -> bool {
    |i: int| labels[i] == a && predictions[i] == p
}

/// Sample `i` is labelled `a`.
pub open spec fn label_at(labels: Seq<usize>, a: int) -> spec_fn(int) -> bool {
    |i: int| labels[i] == a
}

/// Sample `i` is predicted correctly.
pub open spec fn hit_at(labels: Seq<usize>, predictions: Seq<usize>) -> spec_fn(int) -> bool {
    |i: int| labels[i] == predictions[i]
}

pub open spec fn min_len(a: nat, b: nat) -> nat {
    if a < b {
        a
    } else {
        b
    }
}

/// Counts, over the pairs of label and prediction, the hits, the samples of
/// each class, the hits of each class and the confusion matrix (rows by
/// label, columns by prediction). Labels and predictions outside the classes
/// count only towards `correct` and `counted`.
pub fn classification_counts(labels: &[usize], predictions: &[usize], class_names: &[String]) -> (r:
    ClassificationCounts)
    ensures
        r.counted == min_len(labels@.len(), predictions@.len()),
        r.correct == count_where(r.counted as nat, hit_at(labels@, predictions@)),
        r.totals@.len() == class_names@.len(),
        r.correct_by_class@.len() == class_names@.len(),
        r.confusion_matrix@.len() == class_names@.len(),
        forall|c: int|
            0 <= c < class_names@.len() ==> #[trigger] r.totals@[c] == count_where(
                r.counted as nat,
                label_at(labels@, c),
            ),
        forall|c: int|
            0 <= c < class_names@.len() ==> #[trigger] r.correct_by_class@[c] == count_where(
                r.counted as nat,
                pair_at(labels@, predictions@, c, c),
            ),
        forall|a: int|
            0 <= a < class_names@.len() ==> {
                let row = #[trigger] r.confusion_matrix@[a];
                &&& row.actual_index == a
                &&& row.actual_name@ == class_names@[a]@
                &&& row.predicted_counts@.len() == class_names@.len()
                &&& forall|p: int|
                    0 <= p < class_names@.len() ==> #[trigger] row.predicted_counts@[p]
                        == count_where(r.counted as nat, pair_at(labels@, predictions@, a, p))
            },
{
    let class_count = class_names.len();
    let n = if labels.len() < predictions.len() {
        labels.len()
    } else {
        predictions.len()
    };
    let mut confusion: Vec<Vec<usize>> = Vec::new();
    let mut a: usize = 0;
    while a < class_count
        invariant
            a <= class_count,
            confusion@.len() == a,
            forall|x: int|
                0 <= x < a ==> (#[trigger] confusion@[x])@.len() == class_count && forall|p: int|
                    0 <= p < class_count ==> #[trigger] confusion@[x]@[p] == 0,
        decreases class_count - a,
    {
        confusion.push(vec![0usize; class_count]);
        a = a + 1;
    }
    let mut totals: Vec<usize> = vec![0usize; class_count];
    let mut hits: Vec<usize> = vec![0usize; class_count];
    let mut correct: usize = 0;
    let mut i: usize = 0;
    while i < n
        invariant
            i <= n,
            n <= labels@.len(),
            n <= predictions@.len(),
            class_count == class_names@.len(),
            correct == count_where(i as nat, hit_at(labels@, predictions@)),
            totals@.len() == class_count,
            hits@.len() == class_count,
            confusion@.len() == class_count,
            forall|c: int|
                0 <= c < class_count ==> #[trigger] totals@[c] == count_where(
                    i as nat,
                    label_at(labels@, c),
                ),
            forall|c: int|
                0 <= c < class_count ==> #[trigger] hits@[c] == count_where(
                    i as nat,
                    pair_at(labels@, predictions@, c, c),
                ),
            forall|x: int|
                0 <= x < class_count ==> (#[trigger] confusion@[x])@.len() == class_count && forall|p: int|
                    0 <= p < class_count ==> #[trigger] confusion@[x]@[p] == count_where(
                        i as nat,
                        pair_at(labels@, predictions@, x, p),
                    ),
        decreases n - i,
    {
        let actual = labels[i];
        let predicted = predictions[i];
        proof {
            lemma_count_where_bound(i as nat, hit_at(labels@, predictions@));
            assert forall|c: int| 0 <= c < class_count implies #[trigger] totals@[c] <= i by {
                lemma_count_where_bound(i as nat, label_at(labels@, c));
            }
            assert forall|c: int| 0 <= c < class_count implies #[trigger] hits@[c] <= i by {
                lemma_count_where_bound(i as nat, pair_at(labels@, predictions@, c, c));
            }
            assert forall|x: int, p: int|
                0 <= x < class_count && 0 <= p < class_count implies #[trigger] confusion@[x]@[p]
                <= i by {
                lemma_count_where_bound(i as nat, pair_at(labels@, predictions@, x, p));
            }
        }
        if actual == predicted {
            correct = correct + 1;
        }
        if actual < class_count {
            let t = totals[actual] + 1;
            totals.set(actual, t);
            if actual == predicted {
                let h = hits[actual] + 1;
                hits.set(actual, h);
            }
            if predicted < class_count {
                let mut row = confusion[actual].clone();
                assert(row@ =~= confusion@[actual as int]@);
                let cell = row[predicted] + 1;
                row.set(predicted, cell);
                confusion.set(actual, row);
            }
        }
        proof {
            assert forall|x: int, p: int|
                0 <= x < class_count && 0 <= p < class_count implies #[trigger] confusion@[x]@[p]
                == count_where((i + 1) as nat, pair_at(labels@, predictions@, x, p)) by {}
        }
        i = i + 1;
    }
    let mut rows: Vec<ConfusionRow> = Vec::new();
    let mut a: usize = 0;
    while a < class_count
        invariant
            a <= class_count,
            class_count == class_names@.len(),
            confusion@.len() == class_count,
            rows@.len() == a,
            forall|x: int|
                0 <= x < class_count ==> (#[trigger] confusion@[x])@.len() == class_count && forall|p: int|
                    0 <= p < class_count ==> #[trigger] confusion@[x]@[p] == count_where(
                        n as nat,
                        pair_at(labels@, predictions@, x, p),
                    ),
            forall|x: int|
                0 <= x < a ==> {
                    let row = #[trigger] rows@[x];
                    &&& row.actual_index == x
                    &&& row.actual_name@ == class_names@[x]@
                    &&& row.predicted_counts@ == confusion@[x]@
                },
        decreases class_count - a,
    {
        let counts = confusion[a].clone();
        assert(counts@ =~= confusion@[a as int]@);
        rows.push(
            ConfusionRow {
                actual_index: a,
                actual_name: class_names[a].clone(),
                predicted_counts: counts,
            },
        );
        a = a + 1;
    }
    ClassificationCounts {
        correct,
        counted: n,
        totals,
        correct_by_class: hits,
        confusion_matrix: rows,
    }
}

/// The labels of the samples at `indexes`, in order.
pub fn collect_labels(labels: &[usize], indexes: &[usize]) -> (r: Vec<usize>)
    requires
        forall|i: int| 0 <= i < indexes@.len() ==> #[trigger] indexes@[i] < labels@.len(),
    ensures
        r@ == indexes@.map_values(|i: usize| labels@[i as int]),
{
    let mut out: Vec<usize> = Vec::new();
    let mut t: usize = 0;
    while t < indexes.len()
        invariant
            t <= indexes@.len(),
            forall|i: int| 0 <= i < indexes@.len() ==> #[trigger] indexes@[i] < labels@.len(),
            out@ == indexes@.take(t as int).map_values(|i: usize| labels@[i as int]),
        decreases indexes@.len() - t,
    {
        out.push(labels[indexes[t]]);
        t = t + 1;
        assert(out@ =~= indexes@.take(t as int).map_values(|i: usize| labels@[i as int]));
    }
    assert(indexes@.take(t as int) =~= indexes@);
    out
}

/// `target` followed by the items of `source` it does not already hold, each
/// once, in order of first appearance.
pub open spec fn append_unique(target: Seq<usize>, source: Seq<usize>) -> Seq<usize>
    decreases source.len(),
{
    if source.len() == 0 {
        target
    } else {
        let before = append_unique(target, source.drop_last());
        if before.contains(source.last()) {
            before
        } else {
            before.push(source.last())
        }
    }
}

/// Appends the items of `source` that `target` does not hold yet.
pub fn push_unique_indices(target: &mut Vec<usize>, source: &[usize])
    ensures
        final(target)@ == append_unique(old(target)@, source@),
{
    let mut i: usize = 0;
    while i < source.len()
        invariant
            i <= source@.len(),
            target@ == append_unique(old(target)@, source@.take(i as int)),
        decreases source@.len() - i,
    {
        let index = source[i];
        proof {
            assert(source@.take(i + 1).drop_last() =~= source@.take(i as int));
        }
        if !contains_index(target, index) {
            target.push(index);
        }
        i = i + 1;
    }
    assert(source@.take(i as int) =~= source@);
}

fn contains_index(v: &Vec<usize>, x: usize) -> (r: bool)
    ensures
        r == v@.contains(x),
{
    let mut i: usize = 0;
    while i < v.len()
        invariant
            i <= v@.len(),
            forall|j: int| 0 <= j < i ==> v@[j] != x,
        decreases v@.len() - i,
    {
        if v[i] == x {
            assert(v@[i as int] == x);
            return true;
        }
        i = i + 1;
    }
    false
}


/// Cell `c` of row `r` counts a confusion: an off-diagonal, nonzero count.
pub open spec fn is_confusion(rows: Seq<ConfusionRow>, r: int, c: int) -> bool {
    &&& 0 <= r < rows.len()
    &&& 0 <= c < rows[r].predicted_counts@.len()
    &&& c != rows[r].actual_index
    &&& rows[r].predicted_counts@[c] != 0
}

pub open spec fn cell_count(rows: Seq<ConfusionRow>, r: int, c: int) -> nat {
    rows[r].predicted_counts@[c] as nat
}

/// Name of predicted class `c`; `unknown` past the known classes.
pub open spec fn class_name_or_unknown(class_names: Seq<String>, c: int) -> Seq<char> {
    if 0 <= c < class_names.len() {
        class_names[c]@
    } else {
        "unknown"@
    }
}

/// `actual -> predicted` for cell `c` of row `r`.
pub open spec fn confusion_label(rows: Seq<ConfusionRow>, class_names: Seq<String>, r: int, c: int) -> Seq<
    char,
> {
    rows[r].actual_name@ + " -> "@ + class_name_or_unknown(class_names, c)
}

/// Cell `(r1, c1)` comes before cell `(r0, c0)` in row-major order.
pub open spec fn cell_before(r1: int, c1: int, r0: int, c0: int) -> bool {
    r1 < r0 || (r1 == r0 && c1 < c0)
}

/// The most frequent confusion, as `actual -> predicted` and its count; the
/// first such cell in row-major order when several share the count; `None`
/// when there is no confusion.
pub fn most_common_confusion(rows: &[ConfusionRow], class_names: &[String]) -> (r: Option<
    (String, usize),
>)
    ensures
        (forall|r1: int, c1: int| !#[trigger] is_confusion(rows@, r1, c1)) ==> r is None,
        (exists|r1: int, c1: int| #[trigger] is_confusion(rows@, r1, c1)) ==> r is Some && exists|
            r0: int,
            c0: int,
        | {
            &&& #[trigger] is_confusion(rows@, r0, c0)
            &&& (r->0).1 == cell_count(rows@, r0, c0)
            &&& (r->0).0@ == confusion_label(rows@, class_names@, r0, c0)
            &&& forall|r1: int, c1: int|
                #[trigger] is_confusion(rows@, r1, c1) ==> cell_count(rows@, r1, c1) <= cell_count(
                    rows@,
                    r0,
                    c0,
                ) && (cell_before(r1, c1, r0, c0) ==> cell_count(rows@, r1, c1) < cell_count(
                    rows@,
                    r0,
                    c0,
                ))
        },
{
    let mut best: Option<(String, usize)> = None;
    let ghost mut br: int = 0;
    let ghost mut bc: int = 0;
    let mut ri: usize = 0;
    while ri < rows.len()
        invariant
            ri <= rows@.len(),
            best is None ==> forall|r1: int, c1: int|
                r1 < ri ==> !#[trigger] is_confusion(rows@, r1, c1),
            best is Some ==> {
                &&& is_confusion(rows@, br, bc)
                &&& br < ri
                &&& (best->0).1 == cell_count(rows@, br, bc)
                &&& (best->0).0@ == confusion_label(rows@, class_names@, br, bc)
                &&& forall|r1: int, c1: int|
                    r1 < ri && #[trigger] is_confusion(rows@, r1, c1) ==> cell_count(rows@, r1, c1)
                        <= cell_count(rows@, br, bc) && (cell_before(r1, c1, br, bc) ==> cell_count(
                        rows@,
                        r1,
                        c1,
                    ) < cell_count(rows@, br, bc))
            },
        decreases rows@.len() - ri,
    {
        let row = &rows[ri];
        let mut ci: usize = 0;
        while ci < row.predicted_counts.len()
            invariant
                ri < rows@.len(),
                *row == rows@[ri as int],
                ci <= row.predicted_counts@.len(),
                best is None ==> forall|r1: int, c1: int|
                    cell_before(r1, c1, ri as int, ci as int) ==> !#[trigger] is_confusion(
                        rows@,
                        r1,
                        c1,
                    ),
                best is Some ==> {
                    &&& is_confusion(rows@, br, bc)
                    &&& cell_before(br, bc, ri as int, ci as int)
                    &&& (best->0).1 == cell_count(rows@, br, bc)
                    &&& (best->0).0@ == confusion_label(rows@, class_names@, br, bc)
                    &&& forall|r1: int, c1: int|
                        cell_before(r1, c1, ri as int, ci as int) && #[trigger] is_confusion(
                            rows@,
                            r1,
                            c1,
                        ) ==> cell_count(rows@, r1, c1) <= cell_count(rows@, br, bc) && (
                        cell_before(r1, c1, br, bc) ==> cell_count(rows@, r1, c1) < cell_count(
                            rows@,
                            br,
                            bc,
                        ))
                },
            decreases row.predicted_counts@.len() - ci,
        {
            let count = row.predicted_counts[ci];
            if ci != row.actual_index && count != 0 {
                let better = match &best {
                    None => true,
                    Some((_, best_count)) => count > *best_count,
                };
                if better {
                    let mut label = String::from_str(row.actual_name.as_str());
                    label.append(" -> ");
                    if ci < class_names.len() {
                        label.append(class_names[ci].as_str());
                    } else {
                        label.append("unknown");
                    }
                    best = Some((label, count));
                    proof {
                        br = ri as int;
                        bc = ci as int;
                    }
                }
            }
            ci = ci + 1;
        }
        ri = ri + 1;
        proof {
            assert forall|r1: int, c1: int|
                cell_before(r1, c1, ri as int, 0) && 0 <= c1 < rows@[r1].predicted_counts@.len()
                    && r1 == ri - 1 implies cell_before(r1, c1, (ri - 1) as int, rows@[ri
                - 1].predicted_counts@.len() as int) by {}
        }
    }
    best
}


/// The parts joined with `sep` between neighbours.
pub open spec fn join_with(parts: Seq<Seq<char>>, sep: Seq<char>) -> Seq<char>
    decreases parts.len(),
{
    if parts.len() == 0 {
        Seq::empty()
    } else if parts.len() == 1 {
        parts[0]
    } else {
        join_with(parts.drop_last(), sep) + sep + parts.last()
    }
}

/// `name=[c0|c1|...]` for one confusion row.
pub open spec fn confusion_row_text(row: ConfusionRow) -> Seq<char> {
    row.actual_name@ + "=["@ + join_with(
        row.predicted_counts@.map_values(|c: usize| decimal_text(c as nat)),
        "|"@,
    ) + "]"@
}

/// The rows of a confusion matrix as text, separated by `;`.
pub fn format_confusion_matrix(rows: &[ConfusionRow]) -> (r: String)
    ensures
        r@ == join_with(rows@.map_values(|row: ConfusionRow| confusion_row_text(row)), ";"@),
{
    let mut out = String::new();
    let mut i: usize = 0;
    while i < rows.len()
        invariant
            i <= rows@.len(),
            out@ == join_with(
                rows@.take(i as int).map_values(|row: ConfusionRow| confusion_row_text(row)),
                ";"@,
            ),
        decreases rows@.len() - i,
    {
        let ghost before = out@;
        if i > 0 {
            out.append(";");
        }
        let ghost prefix = out@;
        let row = &rows[i];
        out.append(row.actual_name.as_str());
        out.append("=[");
        let counts = &row.predicted_counts;
        let mut j: usize = 0;
        while j < counts.len()
            invariant
                j <= counts@.len(),
                *counts == row.predicted_counts,
                out@ == prefix + row.actual_name@ + "=["@ + join_with(
                    counts@.take(j as int).map_values(|c: usize| decimal_text(c as nat)),
                    "|"@,
                ),
            decreases counts@.len() - j,
        {
            if j > 0 {
                out.append("|");
            }
            push_decimal(&mut out, counts[j] as u64);
            proof {
                let parts = counts@.take(j + 1).map_values(|c: usize| decimal_text(c as nat));
                assert(parts.drop_last() =~= counts@.take(j as int).map_values(
                    |c: usize| decimal_text(c as nat),
                ));
                assert(out@ =~= prefix + row.actual_name@ + "=["@ + join_with(parts, "|"@));
            }
            j = j + 1;
        }
        out.append("]");
        proof {
            assert(counts@.take(j as int) =~= counts@);
            let texts = rows@.take(i + 1).map_values(|row: ConfusionRow| confusion_row_text(row));
            assert(texts.drop_last() =~= rows@.take(i as int).map_values(
                |row: ConfusionRow| confusion_row_text(row),
            ));
            assert(texts.last() == confusion_row_text(rows@[i as int]));
            assert(out@ =~= join_with(texts, ";"@));
        }
        i = i + 1;
    }
    assert(rows@.take(i as int) =~= rows@);
    out
}


/// Name of class `label`: its entry in `class_names`, or `class-<label>`.
pub open spec fn class_label_name(class_names: Seq<String>, label: usize) -> Seq<char> {
    if label < class_names.len() {
        class_names[label as int]@
    } else {
        "class-"@ + decimal_text(label as nat)
    }
}

/// Sample `i` has a label named `name`.
pub open spec fn named_at(labels: Seq<usize>, class_names: Seq<String>, name: Seq<char>) -> spec_fn(
    int,
) -> bool {
    |i: int| class_label_name(class_names, labels[i]) == name
}

fn find_name(counts: &Vec<(String, usize)>, name: &str) -> (r: Option<usize>)
    ensures
        r is Some ==> r->0 < counts@.len() && counts@[r->0 as int].0@ == name@,
        r is None ==> forall|x: int| 0 <= x < counts@.len() ==> (#[trigger] counts@[x]).0@ != name@,
{
    let mut j: usize = 0;
    while j < counts.len()
        invariant
            j <= counts@.len(),
            forall|x: int| 0 <= x < j ==> (#[trigger] counts@[x]).0@ != name@,
        decreases counts@.len() - j,
    {
        if str_eq(counts[j].0.as_str(), name) {
            return Some(j);
        }
        j = j + 1;
    }
    None
}

/// How many samples carry each class name, each name once, in order of
/// first appearance; a label past the known classes counts as
/// `class-<label>`.
pub fn class_counts(labels: &[usize], class_names: &[String]) -> (r: Vec<(String, usize)>)
    ensures
        forall|a: int, b: int| 0 <= a < b < r@.len() ==> (#[trigger] r@[a]).0@ != (#[trigger] r@[b]).0@,
        forall|j: int|
            0 <= j < r@.len() ==> (#[trigger] r@[j]).1 == count_where(
                labels@.len(),
                named_at(labels@, class_names@, r@[j].0@),
            ) && r@[j].1 >= 1,
        forall|i: int|
            0 <= i < labels@.len() ==> exists|j: int|
                0 <= j < r@.len() && (#[trigger] r@[j]).0@ == class_label_name(
                    class_names@,
                    #[trigger] labels@[i],
                ),
{
    let mut counts: Vec<(String, usize)> = Vec::new();
    let mut t: usize = 0;
    while t < labels.len()
        invariant
            t <= labels@.len(),
            forall|a: int, b: int|
                0 <= a < b < counts@.len() ==> (#[trigger] counts@[a]).0@ != (#[trigger] counts@[b]).0@,
            forall|j: int|
                0 <= j < counts@.len() ==> (#[trigger] counts@[j]).1 == count_where(
                    t as nat,
                    named_at(labels@, class_names@, counts@[j].0@),
                ) && counts@[j].1 >= 1,
            forall|i: int|
                0 <= i < t ==> exists|j: int|
                    0 <= j < counts@.len() && (#[trigger] counts@[j]).0@ == class_label_name(
                        class_names@,
                        #[trigger] labels@[i],
                    ),
            forall|k: Seq<char>|
                (forall|j: int| 0 <= j < counts@.len() ==> (#[trigger] counts@[j]).0@ != k) ==> count_where(
                    t as nat,
                    #[trigger] named_at(labels@, class_names@, k),
                ) == 0,
        decreases labels@.len() - t,
    {
        let name = label_name(class_names, labels[t]);
        let ghost old_counts = counts@;
        let ghost nm = name@;
        assert(nm == class_label_name(class_names@, labels@[t as int]));
        let position = find_name(&counts, name.as_str());
        let found = position.is_some();
        let j: usize = match position {
            Some(p) => p,
            None => 0,
        };
        proof {
            lemma_count_where_bound(t as nat, named_at(labels@, class_names@, nm));
        }
        if found {
            let entry_name = counts[j].0.clone();
            let next = counts[j].1 + 1;
            counts.set(j, (entry_name, next));
        } else {
            counts.push((name, 1));
        }
        proof {
            assert forall|a: int, b: int|
                0 <= a < b < counts@.len() implies (#[trigger] counts@[a]).0@ != (#[trigger] counts@[b]).0@ by {
                if found {
                    assert(counts@[a].0@ == old_counts[a].0@);
                    assert(counts@[b].0@ == old_counts[b].0@);
                } else if b == old_counts.len() {
                    assert(counts@[a] == old_counts[a]);
                } else {
                    assert(counts@[a] == old_counts[a]);
                    assert(counts@[b] == old_counts[b]);
                }
            }
            assert forall|x: int| 0 <= x < counts@.len() implies (#[trigger] counts@[x]).1 == count_where(
                (t + 1) as nat,
                named_at(labels@, class_names@, counts@[x].0@),
            ) && counts@[x].1 >= 1 by {
                if found {
                    assert(counts@[x].0@ == old_counts[x].0@);
                } else if x < old_counts.len() {
                    assert(counts@[x] == old_counts[x]);
                } else {
                    assert(counts@[x].0@ == nm);
                }
            }
            assert forall|i: int| 0 <= i < t + 1 implies exists|x: int|
                0 <= x < counts@.len() && (#[trigger] counts@[x]).0@ == class_label_name(
                    class_names@,
                    #[trigger] labels@[i],
                ) by {
                if i == t {
                    if found {
                        assert(counts@[j as int].0@ == nm);
                    } else {
                        assert(counts@[old_counts.len() as int].0@ == nm);
                    }
                } else {
                    let x = choose|x: int|
                        0 <= x < old_counts.len() && (#[trigger] old_counts[x]).0@ == class_label_name(
                            class_names@,
                            labels@[i],
                        );
                    assert(counts@[x].0@ == old_counts[x].0@);
                }
            }
            assert forall|k: Seq<char>|
                (forall|x: int| 0 <= x < counts@.len() ==> (#[trigger] counts@[x]).0@ != k) implies count_where(
                (t + 1) as nat,
                #[trigger] named_at(labels@, class_names@, k),
            ) == 0 by {
                if found {
                    assert forall|x: int| 0 <= x < old_counts.len() implies (#[trigger] old_counts[x]).0@ != k by {
                        assert(counts@[x].0@ == old_counts[x].0@);
                    }
                    assert(counts@[j as int].0@ == nm);
                } else {
                    assert forall|x: int| 0 <= x < old_counts.len() implies (#[trigger] old_counts[x]).0@ != k by {
                        assert(counts@[x] == old_counts[x]);
                    }
                    assert(counts@[old_counts.len() as int].0@ == nm);
                }
            }
        }
        t = t + 1;
    }
    counts
}

} // verus!
