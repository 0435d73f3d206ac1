//! Failure buckets of an evaluation: how many samples fell in each bucket
//! and how many of them were wrong, worst rate first.
use vstd::prelude::*;

use crate::bits::count_where;
use crate::text::{chars_of, str_eq};

verus! {

/// One bucket: its name, the samples in it and the wrong ones among them.
pub struct BucketTally {
    pub bucket: String,
    pub total: usize,
    pub wrong: usize,
}

/// `a` comes before `b` in code-point order.
pub open spec fn text_less(a: Seq<char>, b: Seq<char>) -> bool
    decreases a.len(),
{
    if a.len() == 0 {
        b.len() > 0
    } else if b.len() == 0 {
        false
    } else if a[0] != b[0] {
        (a[0] as int) < (b[0] as int)
    } else {
        text_less(a.drop_first(), b.drop_first())
    }
}

/// Code-point order is irreflexive, asymmetric, and total on different
/// texts.
pub proof fn lemma_text_less_total(a: Seq<char>, b: Seq<char>)
    ensures
        !text_less(a, a),
        a != b ==> text_less(a, b) || text_less(b, a),
        text_less(a, b) ==> !text_less(b, a),
    decreases a.len(),
{
    if a.len() > 0 && b.len() > 0 {
        lemma_text_less_total(a.drop_first(), b.drop_first());
        if a != b && a[0] == b[0] {
            assert(a.drop_first() != b.drop_first()) by {
                if a.drop_first() == b.drop_first() {
                    assert(a =~= seq![a[0]] + a.drop_first());
                    assert(b =~= seq![b[0]] + b.drop_first());
                }
            }
        }
    } else if a.len() > 0 {
        lemma_text_less_total(a.drop_first(), a.drop_first());
    }
    if a.len() == 0 && b.len() == 0 {
        assert(a =~= b);
    }
}

/// Code-point order is transitive.
pub proof fn lemma_text_less_transitive(a: Seq<char>, b: Seq<char>, c: Seq<char>)
    ensures
        text_less(a, b) && text_less(b, c) ==> text_less(a, c),
    decreases a.len(),
{
    if a.len() > 0 && b.len() > 0 && c.len() > 0 {
        lemma_text_less_transitive(a.drop_first(), b.drop_first(), c.drop_first());
    }
}

/// Whether `a` comes before `b` in code-point order.
pub fn text_lt(a: &str, b: &str) -> (r: bool)
    ensures
        r == text_less(a@, b@),
{
    let x = chars_of(a);
    let y = chars_of(b);
    let mut i: usize = 0;
    assert(x@.skip(0) =~= x@);
    assert(y@.skip(0) =~= y@);
    while i < x.len() && i < y.len() && x[i] == y[i]
        invariant
            x@ == a@,
            y@ == b@,
            i <= x@.len(),
            i <= y@.len(),
            text_less(a@, b@) == text_less(x@.skip(i as int), y@.skip(i as int)),
        decreases x@.len() - i,
    {
        assert(x@.skip(i as int).drop_first() =~= x@.skip(i + 1));
        assert(y@.skip(i as int).drop_first() =~= y@.skip(i + 1));
        i = i + 1;
    }
    let ghost xs = x@.skip(i as int);
    let ghost ys = y@.skip(i as int);
    if i == x.len() {
        assert(xs.len() == 0);
        assert(ys.len() == y@.len() - i);
        i < y.len()
    } else if i == y.len() {
        assert(xs.len() > 0 && ys.len() == 0);
        false
    } else {
        assert(xs[0] == x@[i as int]);
        assert(ys[0] == y@[i as int]);
        assert(xs[0] != ys[0]);
        x[i] < y[i]
    }
}

/// Sample `i` fell in the bucket `name`.
pub open spec fn in_bucket(buckets: Seq<Option<String>>, name: Seq<char>) -> spec_fn(int) -> bool {
    |i: int| buckets[i] matches Some(b) && b@ == name
}

/// Sample `i` fell in the bucket `name` and was wrong.
pub open spec fn wrong_in_bucket(buckets: Seq<Option<String>>, correct: Seq<bool>, name: Seq<char>) -> spec_fn(
    int,
) -> bool {
    |i: int| (buckets[i] matches Some(b) && b@ == name) && !correct[i]
}

/// `a` has the higher wrong rate, or the same rate and the earlier name.
pub open spec fn tally_before(a: BucketTally, b: BucketTally) -> bool {
    a.wrong * b.total > b.wrong * a.total || (a.wrong * b.total == b.wrong * a.total && text_less(
        a.bucket@,
        b.bucket@,
    ))
}

/// Ranking by wrong rate, then name, is a strict total order on buckets
/// with samples.
pub proof fn lemma_tally_order(a: BucketTally, b: BucketTally, c: BucketTally)
    requires
        a.total > 0,
        b.total > 0,
        c.total > 0,
    ensures
        a.bucket@ != b.bucket@ ==> tally_before(a, b) || tally_before(b, a),
        tally_before(a, b) ==> !tally_before(b, a),
        tally_before(a, b) && tally_before(b, c) ==> tally_before(a, c),
{
    lemma_text_less_total(a.bucket@, b.bucket@);
    lemma_text_less_transitive(a.bucket@, b.bucket@, c.bucket@);
    let (aw, at, bw, bt, cw, ct) = (
        a.wrong as int,
        a.total as int,
        b.wrong as int,
        b.total as int,
        c.wrong as int,
        c.total as int,
    );
    assert(aw * bt > bw * at && bw * ct > cw * bt ==> aw * ct > cw * at) by (nonlinear_arith)
        requires
            at > 0,
            bt > 0,
            ct > 0,
    ;
    assert(aw * bt == bw * at && bw * ct > cw * bt ==> aw * ct > cw * at) by (nonlinear_arith)
        requires
            at > 0,
            bt > 0,
            ct > 0,
    ;
    assert(aw * bt > bw * at && bw * ct == cw * bt ==> aw * ct > cw * at) by (nonlinear_arith)
        requires
            at > 0,
            bt > 0,
            ct > 0,
    ;
    assert(aw * bt == bw * at && bw * ct == cw * bt ==> aw * ct == cw * at) by (nonlinear_arith)
        requires
            at > 0,
            bt > 0,
            ct > 0,
    ;
}

fn tally_ranks_before(a: &BucketTally, b: &BucketTally) -> (r: bool)
    ensures
        r == tally_before(*a, *b),
{
    let (aw, at, bw, bt) = (a.wrong as u128, a.total as u128, b.wrong as u128, b.total as u128);
    assert(aw * bt <= 0xffff_ffff_ffff_ffff_u128 * 0xffff_ffff_ffff_ffff_u128) by (nonlinear_arith)
        requires
            aw <= 0xffff_ffff_ffff_ffff_u128,
            bt <= 0xffff_ffff_ffff_ffff_u128,
    ;
    assert(bw * at <= 0xffff_ffff_ffff_ffff_u128 * 0xffff_ffff_ffff_ffff_u128) by (nonlinear_arith)
        requires
            bw <= 0xffff_ffff_ffff_ffff_u128,
            at <= 0xffff_ffff_ffff_ffff_u128,
    ;
    let left = aw * bt;
    let right = bw * at;
    left > right || (left == right && text_lt(a.bucket.as_str(), b.bucket.as_str()))
}

/// The tallies of the samples, one per bucket that some sample fell in,
/// worst wrong rate first and, at equal rates, by name. A sample without a
/// bucket is not counted.
pub open spec fn is_bucket_table(buckets: Seq<Option<String>>, correct: Seq<bool>, rows: Seq<BucketTally>) -> bool {
    &&& forall|a: int, b: int| 0 <= a < b < rows.len() ==> tally_before(#[trigger] rows[a], #[trigger] rows[b])
    &&& forall|t: int|
        0 <= t < rows.len() ==> {
            let row = #[trigger] rows[t];
            &&& row.total == count_where(buckets.len(), in_bucket(buckets, row.bucket@))
            &&& row.wrong == count_where(buckets.len(), wrong_in_bucket(buckets, correct, row.bucket@))
            &&& row.total > 0
        }
    &&& forall|j: int|
        0 <= j < buckets.len() ==> (#[trigger] buckets[j] matches Some(b) ==> exists|t: int|
            0 <= t < rows.len() && rows[t].bucket@ == b@)
}

/// Counts the samples of each bucket and the wrong ones, in order of first
/// appearance.
fn tally_in_order(buckets: &[Option<String>], correct: &[bool]) -> (rows: Vec<BucketTally>)
    requires
        buckets@.len() == correct@.len(),
    ensures
        forall|a: int, b: int| 0 <= a < b < rows@.len() ==> (#[trigger] rows@[a]).bucket@ != (#[trigger] rows@[b]).bucket@,
        forall|t: int|
            0 <= t < rows@.len() ==> {
                let row = #[trigger] rows@[t];
                &&& row.total == count_where(buckets@.len(), in_bucket(buckets@, row.bucket@))
                &&& row.wrong == count_where(buckets@.len(), wrong_in_bucket(buckets@, correct@, row.bucket@))
                &&& row.total > 0
            },
        forall|j: int|
            0 <= j < buckets@.len() ==> (#[trigger] buckets@[j] matches Some(b) ==> exists|t: int|
                0 <= t < rows@.len() && rows@[t].bucket@ == b@),
{
    let mut rows: Vec<BucketTally> = Vec::new();
    let mut i: usize = 0;
    while i < buckets.len()
        invariant
            i <= buckets@.len(),
            buckets@.len() == correct@.len(),
            forall|a: int, b: int| 0 <= a < b < rows@.len() ==> (#[trigger] rows@[a]).bucket@ != (#[trigger] rows@[b]).bucket@,
            forall|t: int|
                0 <= t < rows@.len() ==> {
                    let row = #[trigger] rows@[t];
                    &&& row.total == count_where(i as nat, in_bucket(buckets@, row.bucket@))
                    &&& row.wrong == count_where(i as nat, wrong_in_bucket(buckets@, correct@, row.bucket@))
                    &&& row.total > 0
                },
            forall|j: int|
                0 <= j < i ==> (#[trigger] buckets@[j] matches Some(b) ==> exists|t: int|
                    0 <= t < rows@.len() && rows@[t].bucket@ == b@),
            forall|t: int| 0 <= t < rows@.len() ==> (#[trigger] rows@[t]).total <= i,
        decreases buckets@.len() - i,
    {
        match &buckets[i] {
            None => {
                proof {
                    assert forall|t: int| 0 <= t < rows@.len() implies {
                        let row = #[trigger] rows@[t];
                        &&& row.total == count_where((i + 1) as nat, in_bucket(buckets@, row.bucket@))
                        &&& row.wrong == count_where((i + 1) as nat, wrong_in_bucket(buckets@, correct@, row.bucket@))
                    } by {
                        assert(!in_bucket(buckets@, rows@[t].bucket@)(i as int));
                        assert(!wrong_in_bucket(buckets@, correct@, rows@[t].bucket@)(i as int));
                    }
                }
            },
            Some(name) => {
                let mut r: usize = 0;
                while r < rows.len() && !str_eq(rows[r].bucket.as_str(), name.as_str())
                    invariant
                        r <= rows@.len(),
                        forall|q: int| 0 <= q < r ==> (#[trigger] rows@[q]).bucket@ != name@,
                    decreases rows@.len() - r,
                {
                    r = r + 1;
                }
                let ghost before = rows@;
                if r < rows.len() {
                    let old_total = rows[r].total;
                    let old_wrong = rows[r].wrong;
                    let bucket = rows[r].bucket.clone();
                    assert(old_wrong <= old_total) by {
                        crate::bits::lemma_count_where_implies(
                            i as nat,
                            wrong_in_bucket(buckets@, correct@, before[r as int].bucket@),
                            in_bucket(buckets@, before[r as int].bucket@),
                        );
                    }
                    let wrong = if correct[i] {
                        old_wrong
                    } else {
                        old_wrong + 1
                    };
                    rows.set(r, BucketTally { bucket, total: old_total + 1, wrong });
                    proof {
                        assert forall|t: int| 0 <= t < rows@.len() implies {
                            let row = #[trigger] rows@[t];
                            &&& row.total == count_where((i + 1) as nat, in_bucket(buckets@, row.bucket@))
                            &&& row.wrong == count_where((i + 1) as nat, wrong_in_bucket(buckets@, correct@, row.bucket@))
                            &&& row.total > 0
                        } by {
                            if t != r {
                                assert(rows@[t] == before[t]);
                                assert(before[t].bucket@ != before[r as int].bucket@);
                                assert(!in_bucket(buckets@, rows@[t].bucket@)(i as int));
                                assert(!wrong_in_bucket(buckets@, correct@, rows@[t].bucket@)(i as int));
                            } else {
                                assert(in_bucket(buckets@, rows@[t].bucket@)(i as int));
                            }
                        }
                        assert forall|a: int, b: int| 0 <= a < b < rows@.len() implies (
                        #[trigger] rows@[a]).bucket@ != (#[trigger] rows@[b]).bucket@ by {
                            assert(before[a].bucket@ != before[b].bucket@);
                            if a == r {
                                assert(rows@[a].bucket@ == before[a].bucket@);
                            }
                            if b == r {
                                assert(rows@[b].bucket@ == before[b].bucket@);
                            }
                        }
                        assert forall|j: int| 0 <= j < i + 1 implies (#[trigger] buckets@[j] matches Some(b)
                            ==> exists|t: int| 0 <= t < rows@.len() && rows@[t].bucket@ == b@) by {
                            if j < i {
                                if let Some(b) = buckets@[j] {
                                    let t = choose|t: int| 0 <= t < before.len() && before[t].bucket@ == b@;
                                    assert(rows@[t].bucket@ == before[t].bucket@);
                                }
                            } else {
                                assert(rows@[r as int].bucket@ == name@);
                            }
                        }
                    }
                } else {
                    proof {
                        assert forall|j: int| 0 <= j < i implies !#[trigger] in_bucket(buckets@, name@)(j) by {
                            if in_bucket(buckets@, name@)(j) {
                                let b = buckets@[j]->0;
                                let t = choose|t: int| 0 <= t < before.len() && before[t].bucket@ == b@;
                                assert(before[t].bucket@ != name@);
                            }
                        }
                        crate::bits::lemma_count_where_tail(i as nat, 0, in_bucket(buckets@, name@));
                        assert forall|j: int| 0 <= j < i implies !#[trigger] wrong_in_bucket(buckets@, correct@, name@)(j) by {
                            assert(!in_bucket(buckets@, name@)(j));
                        }
                        crate::bits::lemma_count_where_tail(i as nat, 0, wrong_in_bucket(buckets@, correct@, name@));
                    }
                    let wrong: usize = if correct[i] {
                        0
                    } else {
                        1
                    };
                    rows.push(BucketTally { bucket: name.clone(), total: 1, wrong });
                    proof {
                        assert forall|t: int| 0 <= t < rows@.len() implies {
                            let row = #[trigger] rows@[t];
                            &&& row.total == count_where((i + 1) as nat, in_bucket(buckets@, row.bucket@))
                            &&& row.wrong == count_where((i + 1) as nat, wrong_in_bucket(buckets@, correct@, row.bucket@))
                            &&& row.total > 0
                        } by {
                            if t < before.len() {
                                assert(rows@[t] == before[t]);
                                assert(before[t].bucket@ != name@);
                                assert(!in_bucket(buckets@, rows@[t].bucket@)(i as int));
                                assert(!wrong_in_bucket(buckets@, correct@, rows@[t].bucket@)(i as int));
                            } else {
                                assert(rows@[t].bucket@ == name@);
                                assert(in_bucket(buckets@, name@)(i as int));
                            }
                        }
                        assert forall|a: int, b: int| 0 <= a < b < rows@.len() implies (
                        #[trigger] rows@[a]).bucket@ != (#[trigger] rows@[b]).bucket@ by {
                            if b == before.len() {
                                assert(rows@[a] == before[a]);
                            } else {
                                assert(rows@[a] == before[a]);
                                assert(rows@[b] == before[b]);
                            }
                        }
                        assert forall|j: int| 0 <= j < i + 1 implies (#[trigger] buckets@[j] matches Some(b)
                            ==> exists|t: int| 0 <= t < rows@.len() && rows@[t].bucket@ == b@) by {
                            if j < i {
                                if let Some(b) = buckets@[j] {
                                    let t = choose|t: int| 0 <= t < before.len() && before[t].bucket@ == b@;
                                    assert(rows@[t] == before[t]);
                                }
                            } else {
                                assert(rows@[before.len() as int].bucket@ == name@);
                            }
                        }
                    }
                }
            },
        }
        i = i + 1;
    }
    rows
}

/// The row holds the tallies of its bucket.
pub open spec fn row_ok(buckets: Seq<Option<String>>, correct: Seq<bool>, row: BucketTally) -> bool {
    &&& row.total == count_where(buckets.len(), in_bucket(buckets, row.bucket@))
    &&& row.wrong == count_where(buckets.len(), wrong_in_bucket(buckets, correct, row.bucket@))
    &&& row.total > 0
}

/// The rows are in ranking order.
pub open spec fn tally_sorted(rows: Seq<BucketTally>) -> bool {
    forall|a: int, b: int| 0 <= a < b < rows.len() ==> tally_before(#[trigger] rows[a], #[trigger] rows[b])
}

/// Inserts `row` where the ranking puts it.
fn insert_ranked(out: &mut Vec<BucketTally>, row: BucketTally)
    requires
        tally_sorted(old(out)@),
        forall|t: int| 0 <= t < old(out)@.len() ==> (#[trigger] old(out)@[t]).total > 0,
        forall|t: int| 0 <= t < old(out)@.len() ==> (#[trigger] old(out)@[t]).bucket@ != row.bucket@,
        row.total > 0,
    ensures
        tally_sorted(final(out)@),
        exists|p: int| 0 <= p <= old(out)@.len() && final(out)@ == old(out)@.insert(p, row),
{
    let mut p: usize = 0;
    while p < out.len() && !tally_ranks_before(&row, &out[p])
        invariant
            p <= out@.len(),
            forall|t: int| 0 <= t < p ==> !tally_before(row, #[trigger] out@[t]),
        decreases out@.len() - p,
    {
        p = p + 1;
    }
    let ghost before = out@;
    proof {
        assert forall|t: int| 0 <= t < p implies tally_before(#[trigger] before[t], row) by {
            lemma_tally_order(before[t], row, row);
        }
        assert forall|t: int| p <= t < before.len() implies tally_before(row, #[trigger] before[t]) by {
            if t > p {
                assert(tally_before(before[p as int], before[t]));
                lemma_tally_order(row, before[p as int], before[t]);
            }
        }
    }
    out.insert(p, row);
    proof {
        before.insert_ensures(p as int, row);
        let now = out@;
        assert forall|a: int, b: int| 0 <= a < b < now.len() implies tally_before(
            #[trigger] now[a],
            #[trigger] now[b],
        ) by {
            if b < p {
                assert(now[a] == before[a] && now[b] == before[b]);
            } else if b == p {
                assert(now[a] == before[a] && now[b] == row);
            } else if a < p {
                assert(now[a] == before[a] && now[b] == before[b - 1]);
            } else if a == p {
                assert(now[a] == row && now[b] == before[b - 1]);
            } else {
                assert(now[a] == before[a - 1] && now[b] == before[b - 1]);
            }
        }
    }
}

/// The tallies of every bucket some sample fell in, worst wrong rate first
/// and, at equal rates, by name; samples without a bucket are not counted.
pub fn bucket_tallies(buckets: &[Option<String>], correct: &[bool]) -> (r: Vec<BucketTally>)
    requires
        buckets@.len() == correct@.len(),
    ensures
        is_bucket_table(buckets@, correct@, r@),
{
    let rows = tally_in_order(buckets, correct);
    let mut out: Vec<BucketTally> = Vec::new();
    let mut k: usize = 0;
    while k < rows.len()
        invariant
            k <= rows@.len(),
            forall|a: int, b: int| 0 <= a < b < rows@.len() ==> (#[trigger] rows@[a]).bucket@ != (#[trigger] rows@[b]).bucket@,
            forall|t: int| 0 <= t < rows@.len() ==> row_ok(buckets@, correct@, #[trigger] rows@[t]),
            forall|j: int|
                0 <= j < buckets@.len() ==> (#[trigger] buckets@[j] matches Some(b) ==> exists|t: int|
                    0 <= t < rows@.len() && rows@[t].bucket@ == b@),
            tally_sorted(out@),
            forall|t: int| 0 <= t < out@.len() ==> row_ok(buckets@, correct@, #[trigger] out@[t]),
            forall|t: int| 0 <= t < out@.len() ==> exists|q: int| 0 <= q < k && (#[trigger] out@[t]).bucket@ == rows@[q].bucket@,
            forall|q: int| 0 <= q < k ==> exists|t: int| 0 <= t < out@.len() && out@[t].bucket@ == (#[trigger] rows@[q]).bucket@,
        decreases rows@.len() - k,
    {
        let row = BucketTally { bucket: rows[k].bucket.clone(), total: rows[k].total, wrong: rows[k].wrong };
        assert(row_ok(buckets@, correct@, rows@[k as int]));
        assert(row.bucket@ == rows@[k as int].bucket@);
        let ghost before = out@;
        proof {
            assert forall|t: int| 0 <= t < before.len() implies (#[trigger] before[t]).bucket@ != row.bucket@ by {
                let q = choose|q: int| 0 <= q < k && before[t].bucket@ == rows@[q].bucket@;
                assert(rows@[q].bucket@ != rows@[k as int].bucket@);
            }
            assert forall|t: int| 0 <= t < before.len() implies (#[trigger] before[t]).total > 0 by {
                assert(row_ok(buckets@, correct@, before[t]));
            }
        }
        insert_ranked(&mut out, row);
        proof {
            let p = choose|p: int| 0 <= p <= before.len() && out@ == before.insert(p, row);
            before.insert_ensures(p, row);
            let now = out@;
            assert forall|t: int| 0 <= t < now.len() implies row_ok(buckets@, correct@, #[trigger] now[t]) by {
                if t < p {
                    assert(now[t] == before[t]);
                } else if t > p {
                    assert(now[t] == before[t - 1]);
                }
            }
            assert forall|t: int| 0 <= t < now.len() implies exists|q: int| 0 <= q < k + 1 && (#[trigger] now[t]).bucket@ == rows@[q].bucket@ by {
                if t < p {
                    assert(now[t] == before[t]);
                    let q = choose|q: int| 0 <= q < k && before[t].bucket@ == rows@[q].bucket@;
                } else if t > p {
                    assert(now[t] == before[t - 1]);
                    let q = choose|q: int| 0 <= q < k && before[t - 1].bucket@ == rows@[q].bucket@;
                } else {
                    assert(now[t].bucket@ == rows@[k as int].bucket@);
                }
            }
            assert forall|q: int| 0 <= q < k + 1 implies exists|t: int| 0 <= t < now.len() && now[t].bucket@ == (#[trigger] rows@[q]).bucket@ by {
                if q < k {
                    let t = choose|t: int| 0 <= t < before.len() && before[t].bucket@ == rows@[q].bucket@;
                    if t < p {
                        assert(now[t] == before[t]);
                    } else {
                        assert(now[t + 1] == before[t]);
                    }
                } else {
                    assert(now[p as int].bucket@ == rows@[q].bucket@);
                }
            }
        }
        k = k + 1;
    }
    proof {
        assert forall|j: int| 0 <= j < buckets@.len() implies (#[trigger] buckets@[j] matches Some(b)
            ==> exists|t: int| 0 <= t < out@.len() && out@[t].bucket@ == b@) by {
            if let Some(b) = buckets@[j] {
                let q = choose|q: int| 0 <= q < rows@.len() && rows@[q].bucket@ == b@;
                assert(rows@[q].bucket@ == b@);
            }
        }
    }
    out
}

/// A bucket table names each bucket once.
pub proof fn lemma_bucket_table_names_once(
    buckets: Seq<Option<String>>,
    correct: Seq<bool>,
    rows: Seq<BucketTally>,
)
    requires
        is_bucket_table(buckets, correct, rows),
    ensures
        forall|a: int, b: int| 0 <= a < b < rows.len() ==> (#[trigger] rows[a]).bucket@ != (#[trigger] rows[b]).bucket@,
{
    assert forall|a: int, b: int| 0 <= a < b < rows.len() implies (#[trigger] rows[a]).bucket@ != (
    #[trigger] rows[b]).bucket@ by {
        assert(tally_before(rows[a], rows[b]));
        let (x, y) = (rows[a], rows[b]);
        if x.bucket@ == y.bucket@ {
            assert(x.total == y.total && x.wrong == y.wrong);
            lemma_text_less_total(x.bucket@, x.bucket@);
        }
    }
}

} // verus!
