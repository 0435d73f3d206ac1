//! Class labels of a dataset, the columns of an embedding table, the
//! train/test split, and relabelling of an evaluation set onto the classes
//! of a training set.
use vstd::prelude::*;

use crate::draws::{seeded_order, seeded_shuffle};
use crate::search_space::distinct_in_order;
use crate::text::{chars_of, str_eq, string_from_chars, string_of, trim, trim_chars};
use crate::vision::{ascii_lower, ascii_lowercase};

verus! {

/// Why a label cannot be carried over.
#[derive(Debug, Clone, PartialEq, Eq)]
pub enum RemapError {
    /// The source dataset has no class name for this label.
    MissingSourceClassName(usize),
    /// The training classes have no class of this name.
    UnknownClass(String),
}

/// Label `i` of the source can be carried over: it has a class name, and
/// that name is a target class.
pub open spec fn remappable(source_labels: Seq<usize>, source_names: Seq<String>, target_names: Seq<String>, i: int) -> bool {
    source_labels[i] < source_names.len() && (exists|j: int| 0 <= j < target_names.len() && #[trigger] target_names[j]@ == source_names[source_labels[i] as int]@)
}

fn position_of(names: &[String], name: &str) -> (r: Option<usize>)
    ensures
        r is Some ==> r->0 < names@.len() && names@[r->0 as int]@ == name@ && forall|x: int| 0 <= x < r->0 ==> (#[trigger] names@[x])@ != name@,
        r is None ==> forall|x: int| 0 <= x < names@.len() ==> (#[trigger] names@[x])@ != name@,
{
    let mut j: usize = 0;
    while j < names.len()
        invariant
            j <= names@.len(),
            forall|x: int| 0 <= x < j ==> (#[trigger] names@[x])@ != name@,
        decreases names@.len() - j,
    {
        if str_eq(names[j].as_str(), name) {
            return Some(j);
        }
        j = j + 1;
    }
    None
}

/// Maps each source label to the position of the training class with the
/// same name (the first one, when names repeat). Refuses the first label
/// that has no source class name, or whose name is not a training class.
pub fn remap_labels_by_class_name(
    source_labels: &[usize],
    source_class_names: &[String],
    target_class_names: &[String],
) -> (r: Result<Vec<usize>, RemapError>)
    ensures
        (forall|i: int| 0 <= i < source_labels@.len() ==> #[trigger] remappable(source_labels@, source_class_names@, target_class_names@, i)) ==> r is Ok && r->Ok_0@.len() == source_labels@.len() && forall|i: int| 0 <= i < source_labels@.len() ==> {
            let p = #[trigger] r->Ok_0@[i];
            &&& p < target_class_names@.len()
            &&& target_class_names@[p as int]@ == source_class_names@[source_labels@[i] as int]@
            &&& forall|x: int| 0 <= x < p ==> (#[trigger] target_class_names@[x])@ != source_class_names@[source_labels@[i] as int]@
        },
        !(forall|i: int| 0 <= i < source_labels@.len() ==> #[trigger] remappable(source_labels@, source_class_names@, target_class_names@, i)) ==> exists|i: int| 0 <= i < source_labels@.len() && !remappable(source_labels@, source_class_names@, target_class_names@, i) && (forall|j: int| 0 <= j < i ==> #[trigger] remappable(source_labels@, source_class_names@, target_class_names@, j)) && (
            if source_labels@[i] >= source_class_names@.len() {
                r == Err::<Vec<usize>, RemapError>(RemapError::MissingSourceClassName(source_labels@[i]))
            } else {
                r matches Err(RemapError::UnknownClass(name)) && name@ == source_class_names@[source_labels@[i] as int]@
            }),
{
    let mut out: Vec<usize> = Vec::new();
    let mut i: usize = 0;
    while i < source_labels.len()
        invariant
            i <= source_labels@.len(),
            out@.len() == i,
            forall|j: int| 0 <= j < i ==> #[trigger] remappable(source_labels@, source_class_names@, target_class_names@, j),
            forall|j: int| 0 <= j < i ==> {
                let p = #[trigger] out@[j];
                &&& p < target_class_names@.len()
                &&& target_class_names@[p as int]@ == source_class_names@[source_labels@[j] as int]@
                &&& forall|x: int| 0 <= x < p ==> (#[trigger] target_class_names@[x])@ != source_class_names@[source_labels@[j] as int]@
            },
        decreases source_labels@.len() - i,
    {
        let label = source_labels[i];
        if label >= source_class_names.len() {
            assert(!remappable(source_labels@, source_class_names@, target_class_names@, i as int));
            return Err(RemapError::MissingSourceClassName(label));
        }
        let name = &source_class_names[label];
        match position_of(target_class_names, name.as_str()) {
            Some(p) => {
                out.push(p);
            },
            None => {
                assert(!remappable(source_labels@, source_class_names@, target_class_names@, i as int));
                return Err(RemapError::UnknownClass(name.clone()));
            },
        }
        i = i + 1;
    }
    Ok(out)
}

/// Some class is named `name`.
pub open spec fn has_class(names: Seq<String>, name: Seq<char>) -> bool {
    exists|i: int| 0 <= i < names.len() && #[trigger] names[i]@ == name
}

/// The class of normal samples in an anomaly data set: `normal` if there is
/// such a class, else `good`, else the first class; none without classes.
pub open spec fn normal_class_of(names: Seq<String>) -> Option<Seq<char>> {
    if has_class(names, "normal"@) {
        Some("normal"@)
    } else if has_class(names, "good"@) {
        Some("good"@)
    } else if names.len() > 0 {
        Some(names[0]@)
    } else {
        None
    }
}

fn has_class_named(names: &[String], name: &str) -> (r: bool)
    ensures
        r == has_class(names@, name@),
{
    match position_of(names, name) {
        Some(p) => {
            assert(names@[p as int]@ == name@);
            true
        },
        None => false,
    }
}

/// The class of normal samples, as `normal_class_of` states.
pub fn normal_class_name(class_names: &[String]) -> (r: Option<String>)
    ensures
        match normal_class_of(class_names@) {
            Some(name) => r is Some && r->0@ == name,
            None => r is None,
        },
{
    if has_class_named(class_names, "normal") {
        Some(string_of("normal"))
    } else if has_class_named(class_names, "good") {
        Some(string_of("good"))
    } else if class_names.len() > 0 {
        Some(class_names[0].clone())
    } else {
        None
    }
}

/// The text of each name.
pub open spec fn name_texts(names: Seq<String>) -> Seq<Seq<char>> {
    names.map_values(|s: String| s@)
}

/// Gives each class name a label: the classes are the names in order of
/// first appearance, and each sample's label is the position of its name
/// among them.
pub fn label_classes(names: &[String]) -> (r: (Vec<usize>, Vec<String>))
    ensures
        name_texts(r.1@) == distinct_in_order(name_texts(names@)),
        r.0@.len() == names@.len(),
        forall|i: int|
            0 <= i < names@.len() ==> #[trigger] r.0@[i] < r.1@.len() && r.1@[r.0@[i] as int]@
                == names@[i]@,
{
    let mut labels: Vec<usize> = Vec::new();
    let mut classes: Vec<String> = Vec::new();
    let mut i: usize = 0;
    while i < names.len()
        invariant
            i <= names@.len(),
            name_texts(classes@) == distinct_in_order(name_texts(names@.take(i as int))),
            labels@.len() == i,
            forall|t: int|
                0 <= t < i ==> #[trigger] labels@[t] < classes@.len() && classes@[labels@[t] as int]@
                    == names@[t]@,
        decreases names@.len() - i,
    {
        let ghost before = name_texts(classes@);
        proof {
            assert(name_texts(names@.take(i + 1)).drop_last() =~= name_texts(names@.take(i as int)));
            assert(name_texts(names@.take(i + 1)).last() == names@[i as int]@);
        }
        match position_of(classes.as_slice(), names[i].as_str()) {
            Some(p) => {
                proof {
                    assert(before[p as int] == names@[i as int]@);
                    assert(before.contains(names@[i as int]@));
                }
                labels.push(p);
            },
            None => {
                proof {
                    assert(!before.contains(names@[i as int]@)) by {
                        if before.contains(names@[i as int]@) {
                            let k = choose|k: int| 0 <= k < before.len() && before[k] == names@[i as int]@;
                            assert(classes@[k]@ == names@[i as int]@);
                        }
                    }
                }
                labels.push(classes.len());
                classes.push(names[i].clone());
                proof {
                    assert(name_texts(classes@) =~= before.push(names@[i as int]@));
                }
            },
        }
        i = i + 1;
    }
    assert(names@.take(i as int) =~= names@);
    (labels, classes)
}

/// Why the columns of an embedding table cannot be told apart.
#[derive(Debug, Clone, PartialEq, Eq)]
pub enum EmbeddingColumnsError {
    /// No column is named `label`, `class`, `class_name` or `target`.
    MissingLabelColumn,
    /// Every column is the label or the path column.
    MissingFeatureColumns,
}

/// The message shown for a column error.
pub open spec fn columns_message(e: EmbeddingColumnsError) -> Seq<char> {
    match e {
        EmbeddingColumnsError::MissingLabelColumn => "embedding CSV needs a label, class, class_name, or target column"@,
        EmbeddingColumnsError::MissingFeatureColumns => "embedding CSV needs at least one feature column"@,
    }
}

impl EmbeddingColumnsError {
    /// The message shown for the error.
    pub fn message(&self) -> (r: String)
        ensures
            r@ == columns_message(*self),
    {
        match self {
            EmbeddingColumnsError::MissingLabelColumn => string_of(
                "embedding CSV needs a label, class, class_name, or target column",
            ),
            EmbeddingColumnsError::MissingFeatureColumns => string_of(
                "embedding CSV needs at least one feature column",
            ),
        }
    }
}

/// The roles of the columns of an embedding table: the label column, the
/// path column if there is one, and the feature columns in order.
pub struct EmbeddingColumns {
    pub label: usize,
    pub path: Option<usize>,
    pub features: Vec<usize>,
}

/// A header as it is matched: without surrounding white space, ASCII
/// letters in lower case.
pub open spec fn header_key(header: Seq<char>) -> Seq<char> {
    trim(header).map_values(|c: char| ascii_lower(c))
}

pub open spec fn is_label_header(header: Seq<char>) -> bool {
    let k = header_key(header);
    k == "label"@ || k == "class"@ || k == "class_name"@ || k == "target"@
}

pub open spec fn is_path_header(header: Seq<char>) -> bool {
    let k = header_key(header);
    k == "path"@ || k == "image"@ || k == "image_path"@ || k == "file"@
}

/// Whether column `i` is a label column.
pub open spec fn label_column_at(headers: Seq<Seq<char>>) -> spec_fn(int) -> bool {
    |i: int| is_label_header(headers[i])
}

/// Whether column `i` is a path column.
pub open spec fn path_column_at(headers: Seq<Seq<char>>) -> spec_fn(int) -> bool {
    |i: int| is_path_header(headers[i])
}

/// The first position below `n` where `f` holds, `-1` when there is none.
pub open spec fn first_where(n: nat, f: spec_fn(int) -> bool) -> int
    decreases n,
{
    if n == 0 {
        -1
    } else if first_where((n - 1) as nat, f) >= 0 {
        first_where((n - 1) as nat, f)
    } else if f(n - 1) {
        n - 1
    } else {
        -1
    }
}

/// The columns other than the label and path columns, in order.
pub open spec fn feature_columns(n: nat, label: int, path: int) -> Seq<usize>
    decreases n,
{
    if n == 0 {
        Seq::empty()
    } else if n - 1 == label || n - 1 == path {
        feature_columns((n - 1) as nat, label, path)
    } else {
        feature_columns((n - 1) as nat, label, path).push((n - 1) as usize)
    }
}

pub proof fn lemma_first_where_step(n: nat, f: spec_fn(int) -> bool)
    ensures
        -1 <= first_where(n, f) < n,
        first_where(n, f) >= 0 ==> f(first_where(n, f)),
        first_where(n, f) < 0 ==> forall|i: int| 0 <= i < n ==> !#[trigger] f(i),
        forall|i: int| 0 <= i < first_where(n, f) ==> !#[trigger] f(i),
    decreases n,
{
    if n > 0 {
        lemma_first_where_step((n - 1) as nat, f);
    }
}

pub proof fn lemma_first_where_extends(m: nat, n: nat, f: spec_fn(int) -> bool)
    requires
        m <= n,
        first_where(m, f) >= 0,
    ensures
        first_where(n, f) == first_where(m, f),
    decreases n,
{
    if n > m {
        lemma_first_where_extends(m, (n - 1) as nat, f);
    }
}

fn header_is(header: &String, path_names: bool) -> (r: bool)
    ensures
        r == if path_names {
            is_path_header(header@)
        } else {
            is_label_header(header@)
        },
{
    let key = string_from_chars(ascii_lowercase(&trim_chars(&chars_of(header.as_str()))).as_slice());
    let k = key.as_str();
    if path_names {
        str_eq(k, "path") || str_eq(k, "image") || str_eq(k, "image_path") || str_eq(k, "file")
    } else {
        str_eq(k, "label") || str_eq(k, "class") || str_eq(k, "class_name") || str_eq(k, "target")
    }
}

fn first_header(headers: &[String], path_names: bool) -> (r: Option<usize>)
    ensures
        match r {
            Some(p) => p as int == first_where(
                headers@.len(),
                if path_names {
                    path_column_at(name_texts(headers@))
                } else {
                    label_column_at(name_texts(headers@))
                },
            ),
            None => first_where(
                headers@.len(),
                if path_names {
                    path_column_at(name_texts(headers@))
                } else {
                    label_column_at(name_texts(headers@))
                },
            ) == -1,
        },
{
    let ghost f = if path_names {
        path_column_at(name_texts(headers@))
    } else {
        label_column_at(name_texts(headers@))
    };
    let mut i: usize = 0;
    while i < headers.len()
        invariant
            i <= headers@.len(),
            f == (if path_names {
                path_column_at(name_texts(headers@))
            } else {
                label_column_at(name_texts(headers@))
            }),
            first_where(i as nat, f) == -1,
        decreases headers@.len() - i,
    {
        if header_is(&headers[i], path_names) {
            proof {
                assert(first_where((i + 1) as nat, f) == i);
                lemma_first_where_extends((i + 1) as nat, headers@.len(), f);
            }
            return Some(i);
        }
        i = i + 1;
    }
    None
}

/// Tells the columns of an embedding table apart by their headers: the
/// label column is the first named `label`, `class`, `class_name` or
/// `target`, the path column the first named `path`, `image`, `image_path`
/// or `file` (names matched without surrounding white space and in any
/// ASCII case), and every other column holds a feature.
pub fn embedding_columns(headers: &[String]) -> (r: Result<EmbeddingColumns, EmbeddingColumnsError>)
    ensures
        ({
            let n = headers@.len();
            let label = first_where(n, label_column_at(name_texts(headers@)));
            let path = first_where(n, path_column_at(name_texts(headers@)));
            if label < 0 {
                r == Err::<EmbeddingColumns, EmbeddingColumnsError>(
                    EmbeddingColumnsError::MissingLabelColumn,
                )
            } else if feature_columns(n, label, path).len() == 0 {
                r == Err::<EmbeddingColumns, EmbeddingColumnsError>(
                    EmbeddingColumnsError::MissingFeatureColumns,
                )
            } else {
                &&& r is Ok
                &&& r->Ok_0.label == label
                &&& r->Ok_0.path == (if path >= 0 {
                    Some(path as usize)
                } else {
                    None::<usize>
                })
                &&& r->Ok_0.features@ == feature_columns(n, label, path)
            }
        }),
{
    let ghost n = headers@.len();
    proof {
        lemma_first_where_step(n, label_column_at(name_texts(headers@)));
        lemma_first_where_step(n, path_column_at(name_texts(headers@)));
    }
    let label = match first_header(headers, false) {
        Some(p) => p,
        None => return Err(EmbeddingColumnsError::MissingLabelColumn),
    };
    let path = first_header(headers, true);
    let ghost path_int: int = match path {
        Some(p) => p as int,
        None => -1,
    };
    let mut features: Vec<usize> = Vec::new();
    let mut i: usize = 0;
    while i < headers.len()
        invariant
            i <= headers@.len(),
            features@ == feature_columns(i as nat, label as int, path_int),
            path_int == match path {
                Some(p) => p as int,
                None => -1,
            },
        decreases headers@.len() - i,
    {
        let skip = i == label || match path {
            Some(p) => i == p,
            None => false,
        };
        if !skip {
            features.push(i);
        }
        i = i + 1;
    }
    if features.len() == 0 {
        return Err(EmbeddingColumnsError::MissingFeatureColumns);
    }
    Ok(EmbeddingColumns { label, path, features })
}

/// The positions `0..n`.
pub open spec fn positions_upto(n: nat) -> Seq<usize> {
    Seq::new(n, |i: int| i as usize)
}

/// The smaller of a count and a length.
pub open spec fn cut_at(count: usize, len: nat) -> int {
    if count < len {
        count as int
    } else {
        len as int
    }
}

/// Splits an order of positions: the first `test_count` (all, when there
/// are fewer) form the test side, the rest the training side.
pub fn split_positions(order: &Vec<usize>, test_count: usize) -> (r: (Vec<usize>, Vec<usize>))
    ensures
        r.0@ == order@.take(cut_at(test_count, order@.len())),
        r.1@ == order@.skip(cut_at(test_count, order@.len())),
{
    let cut = if test_count < order.len() {
        test_count
    } else {
        order.len()
    };
    let mut test: Vec<usize> = Vec::new();
    let mut train: Vec<usize> = Vec::new();
    let mut j: usize = 0;
    while j < order.len()
        invariant
            j <= order@.len(),
            cut == cut_at(test_count, order@.len()),
            j <= cut ==> test@ == order@.take(j as int) && train@.len() == 0,
            j > cut ==> test@ == order@.take(cut as int) && train@ == order@.subrange(
                cut as int,
                j as int,
            ),
        decreases order@.len() - j,
    {
        if j < cut {
            test.push(order[j]);
        } else {
            train.push(order[j]);
        }
        j = j + 1;
        assert(j <= cut ==> test@ =~= order@.take(j as int));
        assert(j > cut ==> train@ =~= order@.subrange(cut as int, j as int));
    }
    assert(cut == j ==> train@ =~= order@.skip(cut as int));
    assert(train@ =~= order@.skip(cut as int));
    (test, train)
}

/// Shuffles the sample positions with a generator seeded by `seed` and
/// splits them as `split_positions` does. The split depends on the count
/// and the seed alone, and together the two sides hold each position once.
pub fn shuffled_split(sample_count: usize, test_count: usize, seed: u64) -> (r: (Vec<usize>, Vec<usize>))
    ensures
        r.0@ == seeded_order(positions_upto(sample_count as nat), seed).take(
            cut_at(test_count, sample_count as nat),
        ),
        r.1@ == seeded_order(positions_upto(sample_count as nat), seed).skip(
            cut_at(test_count, sample_count as nat),
        ),
        (r.0@ + r.1@).to_multiset() == positions_upto(sample_count as nat).to_multiset(),
{
    let mut positions: Vec<usize> = Vec::new();
    let mut i: usize = 0;
    while i < sample_count
        invariant
            i <= sample_count,
            positions@ == positions_upto(i as nat),
        decreases sample_count - i,
    {
        positions.push(i);
        i = i + 1;
        assert(positions@ =~= positions_upto(i as nat));
    }
    seeded_shuffle(&mut positions, seed);
    proof {
        broadcast use vstd::seq_lib::group_to_multiset_ensures;

        assert(positions@.len() == positions@.to_multiset().len());
        assert(positions_upto(sample_count as nat).len() == positions_upto(
            sample_count as nat,
        ).to_multiset().len());
    }
    let r = split_positions(&positions, test_count);
    assert(r.0@ + r.1@ =~= positions@);
    r
}

} // verus!
