//! Labelled tables read from CSV text: the iris table (four measurements and
//! the species) and embedding tables (a label column, an optional path
//! column and feature columns). The CSV grammar is the `csv` crate's; the
//! rows are checked and labelled here, and the feature fields are handed on
//! as text for the caller to read as numbers.
use vstd::prelude::*;

use crate::datasets::{
    embedding_columns, feature_columns, first_where, label_classes, label_column_at,
    lemma_first_where_extends, lemma_first_where_step, name_texts, path_column_at,
    columns_message, EmbeddingColumnsError,
};
use crate::search_space::distinct_in_order;
use crate::text::string_of;

verus! {

/// What `csv::Reader` reads from the text (the first line is the header):
/// the header, or `None` when reading it fails; the records read before the
/// first one that fails; and whether one failed.
pub uninterp spec fn csv_table_of(text: Seq<char>) -> (Option<Seq<Seq<char>>>, Seq<Seq<Seq<char>>>, bool);

/// The text of each field of each record.
pub open spec fn records_view(records: Seq<Vec<String>>) -> Seq<Seq<Seq<char>>> {
    records.map_values(|row: Vec<String>| name_texts(row@))
}

/// A read table by the text of its header and records.
pub open spec fn table_view(t: (Option<Vec<String>>, Vec<Vec<String>>, bool)) -> (Option<Seq<Seq<char>>>, Seq<Seq<Seq<char>>>, bool) {
    (
        match t.0 {
            Some(headers) => Some(name_texts(headers@)),
            None => None,
        },
        records_view(t.1@),
        t.2,
    )
}

/// `csv::Reader::from_reader` over the text's bytes, with its default
/// settings (a header line, `,` between fields, every record as long as the
/// header): the header, then the records in order until one fails, and
/// whether one failed; when the header cannot be read, nothing more is
/// read. What the reader makes of the text is named `csv_table_of`, a
/// function of the text alone.
#[verifier::external_body]
pub(crate) fn csv_table(text: &str) -> (r: (Option<Vec<String>>, Vec<Vec<String>>, bool))
    ensures
        table_view(r) == csv_table_of(text@),
{
    let mut reader = csv::Reader::from_reader(text.as_bytes());
    let headers = match reader.headers() {
        Ok(fields) => fields.iter().map(String::from).collect(),
        Err(_) => return (None, Vec::new(), true),
    };
    let mut records = Vec::new();
    for record in reader.records() {
        match record {
            Ok(fields) => records.push(fields.iter().map(String::from).collect()),
            Err(_) => return (Some(headers), records, true),
        }
    }
    (Some(headers), records, false)
}

/// Rows of a labelled table: the feature fields of each row as text, the
/// label of each row, and the class names the labels index.
pub struct LabelledRows {
    pub features: Vec<Vec<String>>,
    pub labels: Vec<usize>,
    pub class_names: Vec<String>,
}

/// The classes are the names in order of first appearance, and each label
/// is the position of its row's name among them.
pub open spec fn labelled_by(names: Seq<Seq<char>>, labels: Seq<usize>, classes: Seq<Seq<char>>) -> bool {
    &&& classes == distinct_in_order(names)
    &&& labels.len() == names.len()
    &&& forall|i: int|
        0 <= i < names.len() ==> #[trigger] labels[i] < classes.len() && classes[labels[i] as int]
            == names[i]
}

/// Record `i` has fewer than `width` fields.
pub open spec fn short_at(rows: Seq<Seq<Seq<char>>>, width: nat) -> spec_fn(int) -> bool {
    |i: int| rows[i].len() < width
}

/// Where reading a table stopped.
#[derive(Debug, Clone, Copy, PartialEq, Eq, Structural)]
pub enum ReadStop {
    /// Every record was read.
    Complete,
    /// The CSV reader failed after the rows read.
    Unreadable,
    /// This record lacks a field the table needs.
    ShortRecord(usize),
}

/// The rows of an iris table read before it stopped, and where it stopped;
/// for a short record, its measurement fields up to the first it lacks.
pub struct IrisRead {
    pub rows: LabelledRows,
    pub stop: ReadStop,
    pub short_fields: Vec<String>,
}

/// The positions of the four iris measurements.
pub open spec fn measurement_positions() -> Seq<usize> {
    seq![0usize, 1usize, 2usize, 3usize]
}

/// The number of rows read before `p` (all when `p` is `-1`).
pub open spec fn read_count(rows: Seq<Seq<Seq<char>>>, p: int) -> int {
    if p >= 0 {
        p
    } else {
        rows.len() as int
    }
}

/// The iris table read from its records, `failed` telling whether the CSV
/// reader failed after them: the rows before the first record with fewer
/// than five fields keep their first four fields as measurements and are
/// labelled by their fifth, the species; reading stops at that record
/// (whose measurement fields up to the first it lacks are handed on), else
/// where the reader failed, else at the end.
pub open spec fn iris_outcome(rows: Seq<Seq<Seq<char>>>, failed: bool, r: IrisRead) -> bool {
    let p = first_where(rows.len(), short_at(rows, 5));
    let read = rows.take(read_count(rows, p));
    &&& records_view(r.rows.features@) == read.map_values(|row: Seq<Seq<char>>| row.take(4))
    &&& labelled_by(
        read.map_values(|row: Seq<Seq<char>>| row[4]),
        r.rows.labels@,
        name_texts(r.rows.class_names@),
    )
    &&& p >= 0 ==> r.stop == ReadStop::ShortRecord(p as usize) && name_texts(r.short_fields@)
        == fields_at(rows[p], present_positions(rows[p], measurement_positions()))
    &&& p < 0 ==> r.stop == (if failed {
        ReadStop::Unreadable
    } else {
        ReadStop::Complete
    }) && r.short_fields@.len() == 0
}

/// The position of the first record shorter than `width`, if any.
fn first_short(records: &Vec<Vec<String>>, width: usize) -> (r: Option<usize>)
    ensures
        match r {
            Some(p) => p as int == first_where(
                records@.len(),
                short_at(records_view(records@), width as nat),
            ),
            None => first_where(records@.len(), short_at(records_view(records@), width as nat))
                == -1,
        },
{
    let ghost f = short_at(records_view(records@), width as nat);
    let mut i: usize = 0;
    while i < records.len()
        invariant
            i <= records@.len(),
            f == short_at(records_view(records@), width as nat),
            first_where(i as nat, f) == -1,
        decreases records@.len() - i,
    {
        if records[i].len() < width {
            proof {
                assert(records_view(records@)[i as int].len() == records@[i as int]@.len());
                assert(first_where((i + 1) as nat, f) == i);
                lemma_first_where_extends((i + 1) as nat, records@.len(), f);
            }
            return Some(i);
        }
        proof {
            assert(records_view(records@)[i as int].len() == records@[i as int]@.len());
        }
        i = i + 1;
    }
    None
}

/// The fields at the given positions, in order.
pub open spec fn fields_at(row: Seq<Seq<char>>, positions: Seq<usize>) -> Seq<Seq<char>> {
    positions.map_values(|p: usize| row[p as int])
}

/// Copies the fields at the given positions.
fn pick_fields(row: &Vec<String>, positions: &Vec<usize>) -> (r: Vec<String>)
    requires
        forall|t: int| 0 <= t < positions@.len() ==> #[trigger] positions@[t] < row@.len(),
    ensures
        name_texts(r@) == fields_at(name_texts(row@), positions@),
{
    let mut out: Vec<String> = Vec::new();
    let mut t: usize = 0;
    while t < positions.len()
        invariant
            t <= positions@.len(),
            forall|u: int| 0 <= u < positions@.len() ==> #[trigger] positions@[u] < row@.len(),
            name_texts(out@) == fields_at(name_texts(row@), positions@.take(t as int)),
            out@.len() == t,
        decreases positions@.len() - t,
    {
        let ghost before = out@;
        let field = row[positions[t]].clone();
        out.push(field);
        proof {
            let want = fields_at(name_texts(row@), positions@.take(t + 1));
            assert forall|u: int| 0 <= u < out@.len() implies name_texts(out@)[u] == want[u] by {
                if u < t {
                    assert(out@[u] == before[u]);
                    assert(name_texts(before)[u] == fields_at(name_texts(row@), positions@.take(t as int))[u]);
                } else {
                    assert(out@[u] == field);
                }
            }
            assert(name_texts(out@) =~= want);
        }
        t = t + 1;
    }
    assert(positions@.take(t as int) =~= positions@);
    out
}

/// Position `t` of `positions` names a field the row lacks.
pub open spec fn missing_at(row: Seq<Seq<char>>, positions: Seq<usize>) -> spec_fn(int) -> bool {
    |t: int| positions[t] >= row.len()
}

/// The positions before the first one that names a field the row lacks.
pub open spec fn present_positions(row: Seq<Seq<char>>, positions: Seq<usize>) -> Seq<usize> {
    let k = first_where(positions.len(), missing_at(row, positions));
    positions.take(if k >= 0 {
        k
    } else {
        positions.len() as int
    })
}

/// Copies the fields at the given positions, in order, up to the first
/// position the row lacks.
fn present_fields(row: &Vec<String>, positions: &Vec<usize>) -> (r: Vec<String>)
    ensures
        name_texts(r@) == fields_at(name_texts(row@), present_positions(name_texts(row@), positions@)),
{
    let ghost texts = name_texts(row@);
    let ghost f = missing_at(texts, positions@);
    let mut out: Vec<String> = Vec::new();
    let mut t: usize = 0;
    while t < positions.len()
        invariant
            t <= positions@.len(),
            texts == name_texts(row@),
            f == missing_at(texts, positions@),
            first_where(t as nat, f) == -1,
            name_texts(out@) == fields_at(texts, positions@.take(t as int)),
            out@.len() == t,
        decreases positions@.len() - t,
    {
        if positions[t] >= row.len() {
            proof {
                assert(f(t as int));
                assert(first_where((t + 1) as nat, f) == t);
                lemma_first_where_extends((t + 1) as nat, positions@.len(), f);
            }
            return out;
        }
        let ghost before = out@;
        let field = row[positions[t]].clone();
        out.push(field);
        proof {
            assert(!f(t as int));
            let want = fields_at(texts, positions@.take(t + 1));
            assert forall|u: int| 0 <= u < out@.len() implies name_texts(out@)[u] == want[u] by {
                if u < t {
                    assert(out@[u] == before[u]);
                    assert(name_texts(before)[u] == fields_at(texts, positions@.take(t as int))[u]);
                } else {
                    assert(out@[u] == field);
                }
            }
            assert(name_texts(out@) =~= want);
        }
        t = t + 1;
    }
    assert(positions@.take(t as int) =~= positions@);
    out
}

/// Takes from each of the first `count` records the fields at `positions`
/// and the field at `label`, and labels those records by the latter.
fn label_records(records: &Vec<Vec<String>>, count: usize, positions: &Vec<usize>, label: usize) -> (r: LabelledRows)
    requires
        count <= records@.len(),
        forall|i: int, t: int|
            0 <= i < count && 0 <= t < positions@.len() ==> #[trigger] positions@[t]
                < #[trigger] records@[i]@.len(),
        forall|i: int| 0 <= i < count ==> label < #[trigger] records@[i]@.len(),
    ensures
        records_view(r.features@) == records_view(records@).take(count as int).map_values(
            |row: Seq<Seq<char>>| fields_at(row, positions@),
        ),
        labelled_by(
            records_view(records@).take(count as int).map_values(|row: Seq<Seq<char>>| row[label as int]),
            r.labels@,
            name_texts(r.class_names@),
        ),
{
    let ghost rows = records_view(records@);
    let mut features: Vec<Vec<String>> = Vec::new();
    let mut names: Vec<String> = Vec::new();
    let mut i: usize = 0;
    while i < count
        invariant
            i <= count,
            count <= records@.len(),
            rows == records_view(records@),
            forall|j: int, t: int|
                0 <= j < count && 0 <= t < positions@.len() ==> #[trigger] positions@[t]
                    < #[trigger] records@[j]@.len(),
            forall|j: int| 0 <= j < count ==> label < #[trigger] records@[j]@.len(),
            records_view(features@) == rows.take(i as int).map_values(
                |row: Seq<Seq<char>>| fields_at(row, positions@),
            ),
            name_texts(names@) == rows.take(i as int).map_values(
                |row: Seq<Seq<char>>| row[label as int],
            ),
            features@.len() == i,
            names@.len() == i,
        decreases count - i,
    {
        let row = &records[i];
        assert forall|t: int| 0 <= t < positions@.len() implies #[trigger] positions@[t] < row@.len() by {
            assert(positions@[t] < records@[i as int]@.len());
        }
        let ghost before_features = features@;
        let ghost before_names = names@;
        let picked = pick_fields(row, positions);
        let name = row[label].clone();
        features.push(picked);
        names.push(name);
        proof {
            assert(rows[i as int] == name_texts(records@[i as int]@));
            let want_f = rows.take(i + 1).map_values(|row: Seq<Seq<char>>| fields_at(row, positions@));
            let want_n = rows.take(i + 1).map_values(|row: Seq<Seq<char>>| row[label as int]);
            assert forall|u: int| 0 <= u < features@.len() implies records_view(features@)[u]
                == want_f[u] by {
                if u < i {
                    assert(features@[u] == before_features[u]);
                    assert(records_view(before_features)[u] == rows.take(i as int).map_values(
                        |row: Seq<Seq<char>>| fields_at(row, positions@),
                    )[u]);
                }
            }
            assert forall|u: int| 0 <= u < names@.len() implies name_texts(names@)[u]
                == want_n[u] by {
                if u < i {
                    assert(names@[u] == before_names[u]);
                    assert(name_texts(before_names)[u] == rows.take(i as int).map_values(
                        |row: Seq<Seq<char>>| row[label as int],
                    )[u]);
                }
            }
            assert(records_view(features@) =~= want_f);
            assert(name_texts(names@) =~= want_n);
        }
        i = i + 1;
    }
    let (labels, class_names) = label_classes(names.as_slice());
    LabelledRows { features, labels, class_names }
}

/// Reads the iris table from its records, as `iris_outcome` states.
pub fn iris_rows(records: &Vec<Vec<String>>, failed: bool) -> (r: IrisRead)
    ensures
        iris_outcome(records_view(records@), failed, r),
{
    let ghost rows = records_view(records@);
    proof {
        lemma_first_where_step(records@.len(), short_at(rows, 5));
    }
    let short = first_short(records, 5);
    let count = match short {
        Some(p) => p,
        None => records.len(),
    };
    assert(count == read_count(rows, first_where(records@.len(), short_at(rows, 5))));
    assert forall|i: int| 0 <= i < count implies 5 <= #[trigger] records@[i]@.len() by {
        assert(!short_at(rows, 5)(i));
        assert(rows[i].len() == records@[i]@.len());
    }
    let mut measurements: Vec<usize> = Vec::new();
    measurements.push(0);
    measurements.push(1);
    measurements.push(2);
    measurements.push(3);
    let labelled = label_records(records, count, &measurements, 4);
    proof {
        let read = rows.take(count as int);
        assert forall|t: int| 0 <= t < read.len() implies fields_at(read[t], measurements@)
            == read[t].take(4) by {
            assert(fields_at(read[t], measurements@) =~= read[t].take(4));
        }
        assert(records_view(labelled.features@) =~= read.map_values(|row: Seq<Seq<char>>| row.take(4)));
    }
    assert(measurements@ =~= measurement_positions());
    match short {
        Some(p) => {
            let fields = present_fields(&records[p], &measurements);
            proof {
                assert(rows[p as int] == name_texts(records@[p as int]@));
            }
            IrisRead { rows: labelled, stop: ReadStop::ShortRecord(p), short_fields: fields }
        },
        None => IrisRead {
            rows: labelled,
            stop: if failed {
                ReadStop::Unreadable
            } else {
                ReadStop::Complete
            },
            short_fields: Vec::new(),
        },
    }
}

/// Reads the iris table from CSV text, as `iris_rows` reads the records the
/// CSV reader gives.
pub fn iris_from_text(text: &str) -> (r: IrisRead)
    ensures
        iris_outcome(csv_table_of(text@).1, csv_table_of(text@).2, r),
{
    let (_, records, failed) = csv_table(text);
    iris_rows(&records, failed)
}

/// Why an embedding table cannot be read.
#[derive(Debug, Clone, PartialEq, Eq)]
pub enum EmbeddingCsvError {
    /// The CSV reader could not read the header.
    Unreadable,
    /// The header names no label or no feature column.
    Columns(EmbeddingColumnsError),
    /// The table holds no record.
    NoRows,
}

impl EmbeddingCsvError {
    /// The message shown for the error.
    pub fn message(&self) -> (r: String)
        ensures
            self matches EmbeddingCsvError::Unreadable ==> r@ == "embedding CSV could not be read"@,
            self matches EmbeddingCsvError::Columns(e) ==> r@ == columns_message(*e),
            self matches EmbeddingCsvError::NoRows ==> r@ == "embedding CSV contains no rows"@,
    {
        match self {
            EmbeddingCsvError::Unreadable => string_of("embedding CSV could not be read"),
            EmbeddingCsvError::Columns(e) => e.message(),
            EmbeddingCsvError::NoRows => string_of("embedding CSV contains no rows"),
        }
    }
}

/// The rows of an embedding table read before it stopped, and where; for a
/// short record, its feature fields up to the first it lacks.
pub struct EmbeddingRead {
    pub rows: LabelledRows,
    pub stop: ReadStop,
    pub short_fields: Vec<String>,
}

/// The largest of `label` and the feature positions.
pub open spec fn widest(label: int, features: Seq<usize>) -> int
    decreases features.len(),
{
    if features.len() == 0 {
        label
    } else if widest(label, features.drop_last()) < features.last() {
        features.last() as int
    } else {
        widest(label, features.drop_last())
    }
}

/// The embedding table read from its header and records, `failed` telling
/// whether the CSV reader failed after them: the header's columns as
/// `embedding_columns` tells them apart; a table whose records were all read
/// and are none is refused; otherwise the rows before the first record
/// lacking a field of the label or a feature column keep their feature
/// fields and are labelled by their label field, and reading stops at that
/// record (whose feature fields up to the first it lacks are handed on),
/// else where the reader failed, else at the end.
pub open spec fn embedding_outcome(
    headers: Seq<Seq<char>>,
    rows: Seq<Seq<Seq<char>>>,
    failed: bool,
    r: Result<(Seq<Seq<Seq<char>>>, Seq<usize>, Seq<Seq<char>>, ReadStop, Seq<Seq<char>>), EmbeddingCsvError>,
) -> bool {
    let n = headers.len();
    let label = first_where(n, label_column_at(headers));
    let path = first_where(n, path_column_at(headers));
    let features = feature_columns(n, label, path);
    let short = first_where(rows.len(), short_at(rows, (widest(label, features) + 1) as nat));
    let read = rows.take(read_count(rows, short));
    if label < 0 {
        r == Err::<(Seq<Seq<Seq<char>>>, Seq<usize>, Seq<Seq<char>>, ReadStop, Seq<Seq<char>>), EmbeddingCsvError>(
            EmbeddingCsvError::Columns(EmbeddingColumnsError::MissingLabelColumn),
        )
    } else if features.len() == 0 {
        r == Err::<(Seq<Seq<Seq<char>>>, Seq<usize>, Seq<Seq<char>>, ReadStop, Seq<Seq<char>>), EmbeddingCsvError>(
            EmbeddingCsvError::Columns(EmbeddingColumnsError::MissingFeatureColumns),
        )
    } else if rows.len() == 0 && !failed {
        r == Err::<(Seq<Seq<Seq<char>>>, Seq<usize>, Seq<Seq<char>>, ReadStop, Seq<Seq<char>>), EmbeddingCsvError>(
            EmbeddingCsvError::NoRows,
        )
    } else {
        &&& r is Ok
        &&& r->Ok_0.0 == read.map_values(|row: Seq<Seq<char>>| fields_at(row, features))
        &&& labelled_by(read.map_values(|row: Seq<Seq<char>>| row[label]), r->Ok_0.1, r->Ok_0.2)
        &&& r->Ok_0.3 == if short >= 0 {
            ReadStop::ShortRecord(short as usize)
        } else if failed {
            ReadStop::Unreadable
        } else {
            ReadStop::Complete
        }
        &&& r->Ok_0.4 == if short >= 0 {
            fields_at(rows[short], present_positions(rows[short], features))
        } else {
            Seq::empty()
        }
    }
}

/// An embedding read, or an error, by its text.
pub open spec fn embedding_result(r: Result<EmbeddingRead, EmbeddingCsvError>) -> Result<(Seq<Seq<Seq<char>>>, Seq<usize>, Seq<Seq<char>>, ReadStop, Seq<Seq<char>>), EmbeddingCsvError> {
    match r {
        Ok(read) => Ok((records_view(read.rows.features@), read.rows.labels@, name_texts(read.rows.class_names@), read.stop, name_texts(read.short_fields@))),
        Err(e) => Err(e),
    }
}

/// Reads an embedding table from its header and records, as
/// `embedding_outcome` states.
pub fn embedding_rows(headers: &Vec<String>, records: &Vec<Vec<String>>, failed: bool) -> (r: Result<
    EmbeddingRead,
    EmbeddingCsvError,
>)
    ensures
        embedding_outcome(name_texts(headers@), records_view(records@), failed, embedding_result(r)),
{
    let columns = match embedding_columns(headers.as_slice()) {
        Ok(c) => c,
        Err(e) => return Err(EmbeddingCsvError::Columns(e)),
    };
    if records.len() == 0 && !failed {
        return Err(EmbeddingCsvError::NoRows);
    }
    let ghost features = columns.features@;
    let mut widest_index = columns.label;
    let mut t: usize = 0;
    while t < columns.features.len()
        invariant
            t <= features.len(),
            features == columns.features@,
            widest_index == widest(columns.label as int, features.take(t as int)),
            columns.label <= widest_index,
            forall|u: int| 0 <= u < t ==> #[trigger] features[u] <= widest_index,
        decreases features.len() - t,
    {
        assert(features.take(t + 1).drop_last() =~= features.take(t as int));
        if widest_index < columns.features[t] {
            widest_index = columns.features[t];
        }
        t = t + 1;
    }
    assert(features.take(t as int) =~= features);
    let ghost rows = records_view(records@);
    let ghost w = (widest_index + 1) as nat;
    let short: Option<usize> = if widest_index == usize::MAX {
        // No record can hold a field past the largest position, so the first
        // record is the first short one, if there is one.
        if records.len() > 0 {
            let first_len = records[0].len();
            proof {
                assert(rows[0].len() == records@[0]@.len());
                assert(records@[0]@.len() == first_len);
                assert(short_at(rows, w)(0));
                assert(first_where(0, short_at(rows, w)) == -1);
                assert(first_where(1, short_at(rows, w)) == 0);
                lemma_first_where_extends(1, records@.len(), short_at(rows, w));
            }
            Some(0)
        } else {
            None
        }
    } else {
        first_short(records, widest_index + 1)
    };
    proof {
        lemma_first_where_step(records@.len(), short_at(rows, w));
    }
    assert(short is Some ==> short->0 as int == first_where(records@.len(), short_at(rows, w)));
    assert(short is None ==> first_where(records@.len(), short_at(rows, w)) == -1);
    let count = match short {
        Some(p) => p,
        None => records.len(),
    };
    assert forall|i: int| 0 <= i < count implies w <= #[trigger] records@[i]@.len() by {
        assert(!short_at(rows, w)(i));
        assert(rows[i].len() == records@[i]@.len());
    }
    let labelled = label_records(records, count, &columns.features, columns.label);
    match short {
        Some(p) => {
            let fields = present_fields(&records[p], &columns.features);
            proof {
                assert(rows[p as int] == name_texts(records@[p as int]@));
                assert(name_texts(fields@) == fields_at(rows[p as int], present_positions(rows[p as int], features)));
            }
            Ok(EmbeddingRead { rows: labelled, stop: ReadStop::ShortRecord(p), short_fields: fields })
        },
        None => {
            let none: Vec<String> = Vec::new();
            assert(name_texts(none@) =~= Seq::empty());
            Ok(
                EmbeddingRead {
                    rows: labelled,
                    stop: if failed {
                        ReadStop::Unreadable
                    } else {
                        ReadStop::Complete
                    },
                    short_fields: none,
                },
            )
        },
    }
}

/// Reads an embedding table from CSV text: refused when the CSV reader
/// cannot read the header, otherwise as `embedding_rows` reads the header
/// and the records the reader gives.
pub fn embedding_from_text(text: &str) -> (r: Result<EmbeddingRead, EmbeddingCsvError>)
    ensures
        match csv_table_of(text@).0 {
            None => r == Err::<EmbeddingRead, EmbeddingCsvError>(EmbeddingCsvError::Unreadable),
            Some(headers) => embedding_outcome(
                headers,
                csv_table_of(text@).1,
                csv_table_of(text@).2,
                embedding_result(r),
            ),
        },
{
    let (headers, records, failed) = csv_table(text);
    match headers {
        None => Err(EmbeddingCsvError::Unreadable),
        Some(h) => embedding_rows(&h, &records, failed),
    }
}

} // verus!
