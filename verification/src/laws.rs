//! Properties that relate several operations of the library.
use vstd::prelude::*;

use crate::report::{
    file_part_text, file_safe, html_char_text, html_text, is_ascii_alphanumeric, path_part_text,
    strip_leading_underscores, strip_trailing_underscores,
};
use crate::text::{csv_values, is_white_space, keep_nonempty, split_at_char, trim, trim_end, trim_start};

use crate::binary::{
    both_at, contribution_of, contribution_rank, contribution_ranking, count_both, count_either,
    count_mismatches, differ_at, either_at, hamming_score, jaccard_score, positions_with,
    BitContribution, Similarity,
};
use crate::binary::word_count;
use crate::datasets::{cut_at, positions_upto};
use crate::draws::seeded_order;
use crate::vote::{first_vote, is_vote_outcome, lemma_first_vote_exists, outvotes};
use crate::bits::{combine, count_where, lemma_count_where_ext, lemma_count_where_tail, packed_bit, WordOp};
use crate::blocks::{
    compared_at, compared_position, full_mask, lemma_covered_below_len,
    lemma_full_mask_compares_everything, lemma_full_mask_count, masked_at, normalized,
    ComparisonMask,
};
use crate::pann::{plasticity_halvings_spec, PlasticitySchedule};
use crate::vision::spatial_cell_of;
use crate::analysis::ResizeDisagreement;
use crate::debug_page::{
    bucket_row, bucket_section, class_row, class_section, concat_texts, disagreement_row,
    disagreement_section, ranked_row, ranked_table, BucketRowText, ClassRowText, RankedRowText,
};
use crate::text::decimal_text;

verus! {

/// Hamming similarity does not depend on the order of its arguments.
pub proof fn lemma_hamming_symmetric(a: Seq<bool>, b: Seq<bool>)
    requires
        a.len() == b.len(),
    ensures
        hamming_score(a, b) == hamming_score(b, a),
{
    lemma_count_where_ext(a.len(), differ_at(a, b), differ_at(b, a));
}

/// Jaccard similarity does not depend on the order of its arguments.
pub proof fn lemma_jaccard_symmetric(a: Seq<bool>, b: Seq<bool>)
    requires
        a.len() == b.len(),
    ensures
        jaccard_score(a, b) == jaccard_score(b, a),
{
    lemma_count_where_ext(a.len(), both_at(a, b), both_at(b, a));
    lemma_count_where_ext(a.len(), either_at(a, b), either_at(b, a));
}

proof fn lemma_count_none(n: nat, f: spec_fn(int) -> bool)
    requires
        forall|i: int| 0 <= i < n ==> !#[trigger] f(i),
    ensures
        count_where(n, f) == 0,
    decreases n,
{
    if n > 0 {
        lemma_count_none((n - 1) as nat, f);
    }
}

/// A nonempty vector is fully Hamming-similar to itself.
pub proof fn lemma_hamming_self(a: Seq<bool>)
    requires
        0 < a.len() <= usize::MAX,
    ensures
        hamming_score(a, a) == (Similarity { numerator: a.len() as usize, denominator: a.len() as usize }),
{
    lemma_count_none(a.len(), differ_at(a, a));
}

/// Every vector is fully Jaccard-similar to itself: the shared set positions
/// are all its set positions (and an all-clear vector scores 1).
pub proof fn lemma_jaccard_self(a: Seq<bool>)
    ensures
        jaccard_score(a, a).numerator == jaccard_score(a, a).denominator,
{
    lemma_count_where_ext(a.len(), both_at(a, a), either_at(a, a));
}

proof fn lemma_positions_with_facts(a: Seq<bool>, b: Seq<bool>, c: BitContribution, n: nat)
    requires
        n <= a.len(),
        a.len() == b.len(),
        n <= usize::MAX,
    ensures
        forall|t: int|
            0 <= t < positions_with(a, b, c, n).len() ==> {
                let (i, ct) = #[trigger] positions_with(a, b, c, n)[t];
                &&& ct == c
                &&& i < n
                &&& contribution_of(a[i as int], b[i as int]) == c
            },
        forall|t: int, u: int|
            0 <= t < u < positions_with(a, b, c, n).len() ==> (#[trigger] positions_with(
                a,
                b,
                c,
                n,
            )[t]).0 < (#[trigger] positions_with(a, b, c, n)[u]).0,
        forall|i: int|
            0 <= i < n && contribution_of(a[i], b[i]) == c ==> #[trigger] positions_with(
                a,
                b,
                c,
                n,
            ).contains((i as usize, c)),
    decreases n,
{
    if n > 0 {
        let m = (n - 1) as nat;
        lemma_positions_with_facts(a, b, c, m);
        let prev = positions_with(a, b, c, m);
        let cur = positions_with(a, b, c, n);
        if contribution_of(a[m as int], b[m as int]) == c {
            assert(cur == prev.push((m as usize, c)));
            assert forall|i: int|
                0 <= i < n && contribution_of(a[i], b[i]) == c implies #[trigger] cur.contains(
                (i as usize, c),
            ) by {
                if i < m {
                    assert(prev.contains((i as usize, c)));
                    let w = choose|w: int| 0 <= w < prev.len() && prev[w] == (i as usize, c);
                    assert(cur[w] == (i as usize, c));
                } else {
                    assert(cur[prev.len() as int] == (i as usize, c));
                }
            }
        }
    }
}

/// The ranking of bit contributions lists every position once, in order of
/// decreasing contribution, ties by increasing position.
pub proof fn lemma_contribution_ranking_sorted(a: Seq<bool>, b: Seq<bool>)
    requires
        a.len() == b.len(),
        a.len() <= usize::MAX,
    ensures
        forall|t: int, u: int|
            0 <= t < u < contribution_ranking(a, b).len() ==> {
                let x = #[trigger] contribution_ranking(a, b)[t];
                let y = #[trigger] contribution_ranking(a, b)[u];
                contribution_rank(x.1) > contribution_rank(y.1) || (x.1 == y.1 && x.0 < y.0)
            },
        forall|t: int|
            0 <= t < contribution_ranking(a, b).len() ==> {
                let x = #[trigger] contribution_ranking(a, b)[t];
                x.0 < a.len() && x.1 == contribution_of(a[x.0 as int], b[x.0 as int])
            },
        forall|i: int|
            0 <= i < a.len() ==> #[trigger] contribution_ranking(a, b).contains(
                (i as usize, contribution_of(a[i], b[i])),
            ),
{
    let n = a.len();
    let s = positions_with(a, b, BitContribution::BothSet, n);
    let m = positions_with(a, b, BitContribution::BothClear, n);
    let d = positions_with(a, b, BitContribution::Differ, n);
    lemma_positions_with_facts(a, b, BitContribution::BothSet, n);
    lemma_positions_with_facts(a, b, BitContribution::BothClear, n);
    lemma_positions_with_facts(a, b, BitContribution::Differ, n);
    let all = contribution_ranking(a, b);
    assert(all == s + m + d);
    assert forall|t: int| 0 <= t < all.len() implies {
        let x = #[trigger] all[t];
        x.0 < a.len() && x.1 == contribution_of(a[x.0 as int], b[x.0 as int])
    } by {
        if t < s.len() {
            assert(all[t] == s[t]);
        } else if t < s.len() + m.len() {
            assert(all[t] == m[t - s.len()]);
        } else {
            assert(all[t] == d[t - s.len() - m.len()]);
        }
    }
    assert forall|t: int, u: int| 0 <= t < u < all.len() implies {
        let x = #[trigger] all[t];
        let y = #[trigger] all[u];
        contribution_rank(x.1) > contribution_rank(y.1) || (x.1 == y.1 && x.0 < y.0)
    } by {
        if u < s.len() {
            assert(all[t] == s[t] && all[u] == s[u]);
        } else if t < s.len() {
            assert(all[t] == s[t]);
            if u < s.len() + m.len() {
                assert(all[u] == m[u - s.len()]);
            } else {
                assert(all[u] == d[u - s.len() - m.len()]);
            }
        } else if u < s.len() + m.len() {
            assert(all[t] == m[t - s.len()] && all[u] == m[u - s.len()]);
        } else if t < s.len() + m.len() {
            assert(all[t] == m[t - s.len()]);
            assert(all[u] == d[u - s.len() - m.len()]);
        } else {
            assert(all[t] == d[t - s.len() - m.len()] && all[u] == d[u - s.len() - m.len()]);
        }
    }
    assert forall|i: int| 0 <= i < a.len() implies #[trigger] all.contains(
        (i as usize, contribution_of(a[i], b[i])),
    ) by {
        let c = contribution_of(a[i], b[i]);
        let e = (i as usize, c);
        if c == BitContribution::BothSet {
            assert(s.contains(e));
            let w = choose|w: int| 0 <= w < s.len() && s[w] == e;
            assert(all[w] == e);
        } else if c == BitContribution::BothClear {
            assert(m.contains(e));
            let w = choose|w: int| 0 <= w < m.len() && m[w] == e;
            assert(all[s.len() + w] == e);
        } else {
            assert(d.contains(e));
            let w = choose|w: int| 0 <= w < d.len() && d[w] == e;
            assert(all[s.len() + m.len() + w] == e);
        }
    }
}


/// Comparing under the mask of all blocks is comparing the whole vectors:
/// the masked Hamming and Jaccard similarities of two vectors of the
/// descriptor's length equal their plain similarities.
pub proof fn lemma_full_mask_is_unmasked(m: ComparisonMask, len: nat, a: Seq<bool>, b: Seq<bool>)
    requires
        a.len() == len,
        b.len() == len,
        len <= usize::MAX,
        m.spec_words().len() == word_count(len),
        forall|p: int|
            0 <= p < 64 * m.spec_words().len() ==> #[trigger] packed_bit(m.spec_words(), p)
                == compared_position(len, full_mask(), p),
        m.spec_selected_bits() == count_where(len, compared_at(len, full_mask())),
    ensures
        m.masked_hamming(a, b) == hamming_score(a, b),
        m.masked_jaccard(a, b) == jaccard_score(a, b),
{
    lemma_full_mask_count(len);
    let words = m.spec_words();
    let limit: nat = 64 * word_count(len);
    assert(limit >= len) by (nonlinear_arith)
        requires
            limit == 64 * ((len + 63) / 64),
    ;
    assert forall|p: int| 0 <= p < limit implies #[trigger] packed_bit(words, p) == (p < len) by {
        if p < len {
            lemma_full_mask_compares_everything(len, p);
        }
        if compared_position(len, full_mask(), p) {
            lemma_covered_below_len(len, normalized(full_mask()), p, 16);
        }
    }
    assert(crate::blocks::compared_words(words.len(), a, b) == word_count(len));
    lemma_masked_is_plain(words, WordOp::Xor, a, b, len, limit, differ_at(a, b));
    lemma_masked_is_plain(words, WordOp::And, a, b, len, limit, both_at(a, b));
    lemma_masked_is_plain(words, WordOp::Or, a, b, len, limit, either_at(a, b));
    crate::bits::lemma_count_where_bound(len, differ_at(a, b));
}

proof fn lemma_masked_is_plain(
    words: Seq<u64>,
    op: WordOp,
    a: Seq<bool>,
    b: Seq<bool>,
    len: nat,
    limit: nat,
    plain: spec_fn(int) -> bool,
)
    requires
        a.len() == len,
        b.len() == len,
        len <= limit,
        forall|p: int| 0 <= p < limit ==> #[trigger] packed_bit(words, p) == (p < len),
        forall|p: int| 0 <= p < len ==> #[trigger] plain(p) == combine(op, a[p], b[p]),
    ensures
        count_where(limit, masked_at(words, op, a, b)) == count_where(len, plain),
{
    let f = masked_at(words, op, a, b);
    assert forall|p: int| len <= p < limit implies !#[trigger] f(p) by {}
    lemma_count_where_tail(limit, len, f);
    lemma_count_where_ext(len, f, plain);
}


/// Escaped HTML text holds no `<`, `>`, `"` or `'`.
pub proof fn lemma_html_text_has_no_markup(s: Seq<char>)
    ensures
        forall|i: int|
            0 <= i < html_text(s).len() ==> {
                let c = #[trigger] html_text(s)[i];
                c != '<' && c != '>' && c != '"' && c != '\''
            },
    decreases s.len(),
{
    if s.len() > 0 {
        lemma_html_text_has_no_markup(s.drop_last());
        let prev = html_text(s.drop_last());
        let tail = html_char_text(s.last());
        reveal_strlit("&amp;");
        reveal_strlit("&lt;");
        reveal_strlit("&gt;");
        reveal_strlit("&quot;");
        reveal_strlit("&#39;");
        assert forall|i: int| 0 <= i < html_text(s).len() implies {
            let c = #[trigger] html_text(s)[i];
            c != '<' && c != '>' && c != '"' && c != '\''
        } by {
            if i >= prev.len() {
                assert(html_text(s)[i] == tail[i - prev.len()]);
            } else {
                assert(html_text(s)[i] == prev[i]);
            }
        }
    }
}

pub open spec fn is_file_safe(c: char) -> bool {
    is_ascii_alphanumeric(c) || c == '-' || c == '_'
}

proof fn lemma_strip_underscores(s: Seq<char>)
    requires
        forall|i: int| 0 <= i < s.len() ==> is_file_safe(#[trigger] s[i]),
    ensures
        strip_trailing_underscores(strip_leading_underscores(s)).len() <= s.len(),
        forall|i: int|
            0 <= i < strip_trailing_underscores(strip_leading_underscores(s)).len()
                ==> is_file_safe(#[trigger] strip_trailing_underscores(strip_leading_underscores(s))[i]),
        strip_trailing_underscores(strip_leading_underscores(s)).len() > 0 ==> strip_trailing_underscores(
            strip_leading_underscores(s),
        )[0] != '_' && strip_trailing_underscores(strip_leading_underscores(s)).last() != '_',
{
    let a = lemma_strip_leading(s);
    let t = strip_leading_underscores(s);
    lemma_strip_trailing(t);
}

proof fn lemma_strip_leading(s: Seq<char>) -> (k: int)
    ensures
        0 <= k <= s.len(),
        strip_leading_underscores(s) == s.skip(k),
        k < s.len() ==> s[k] != '_',
    decreases s.len(),
{
    if s.len() > 0 && s[0] == '_' {
        let k = lemma_strip_leading(s.drop_first());
        assert(s.drop_first().skip(k) =~= s.skip(k + 1));
        k + 1
    } else {
        assert(s.skip(0) =~= s);
        0
    }
}

proof fn lemma_strip_trailing(s: Seq<char>)
    requires
        s.len() > 0 ==> s[0] != '_',
    ensures
        exists|k: int| 0 <= k <= s.len() && strip_trailing_underscores(s) == s.take(k),
        strip_trailing_underscores(s).len() > 0 ==> strip_trailing_underscores(s)[0] != '_'
            && strip_trailing_underscores(s).last() != '_',
    decreases s.len(),
{
    if s.len() > 0 && s.last() == '_' {
        lemma_strip_trailing(s.drop_last());
        let k = choose|k: int|
            0 <= k <= s.drop_last().len() && strip_trailing_underscores(s.drop_last())
                == s.drop_last().take(k);
        assert(s.drop_last().take(k) =~= s.take(k));
    } else {
        assert(s.take(s.len() as int) =~= s);
    }
}

/// A sanitized file-name part uses only ASCII letters, digits, `-` and `_`,
/// does not begin or end with `_`, and has at most 96 characters.
pub proof fn lemma_file_part_is_safe(value: Seq<char>)
    ensures
        file_part_text(value).len() <= 96,
        forall|i: int| 0 <= i < file_part_text(value).len() ==> is_file_safe(#[trigger] file_part_text(value)[i]),
        file_part_text(value).len() > 0 ==> file_part_text(value)[0] != '_',
{
    let safe = value.map_values(|c: char| file_safe(c));
    assert forall|i: int| 0 <= i < safe.len() implies is_file_safe(#[trigger] safe[i]) by {}
    lemma_strip_underscores(safe);
    let t = lemma_strip_leading(safe);
    lemma_strip_trailing(strip_leading_underscores(safe));
}

/// A sanitized path part is not empty and uses only ASCII letters, digits,
/// `-` and `_`.
pub proof fn lemma_path_part_is_safe(value: Seq<char>)
    ensures
        path_part_text(value).len() > 0,
        forall|i: int| 0 <= i < path_part_text(value).len() ==> is_file_safe(#[trigger] path_part_text(value)[i]),
{
    reveal_strlit("sample");
}

/// Every value split from a comma-separated list is nonempty and neither
/// begins nor ends with white space.
pub proof fn lemma_csv_values_trimmed(s: Seq<char>)
    ensures
        forall|i: int|
            0 <= i < csv_values(s).len() ==> {
                let v = #[trigger] csv_values(s)[i];
                v.len() > 0 && !is_white_space(v[0]) && !is_white_space(v.last())
            },
{
    let trimmed = split_at_char(s, ',').map_values(|p: Seq<char>| trim(p));
    assert forall|j: int| 0 <= j < trimmed.len() implies {
        let v = #[trigger] trimmed[j];
        v.len() > 0 ==> !is_white_space(v[0]) && !is_white_space(v.last())
    } by {
        lemma_trim_edges(split_at_char(s, ',')[j]);
    }
    lemma_keep_nonempty(trimmed);
}

proof fn lemma_trim_start_edge(s: Seq<char>)
    ensures
        trim_start(s).len() > 0 ==> !is_white_space(trim_start(s)[0]),
        exists|k: int| 0 <= k <= s.len() && trim_start(s) == s.skip(k),
    decreases s.len(),
{
    if s.len() > 0 && is_white_space(s[0]) {
        lemma_trim_start_edge(s.drop_first());
        let k = choose|k: int| 0 <= k <= s.drop_first().len() && trim_start(s.drop_first()) == s.drop_first().skip(k);
        assert(s.drop_first().skip(k) =~= s.skip(k + 1));
    } else {
        assert(s.skip(0) =~= s);
    }
}

proof fn lemma_trim_end_edges(s: Seq<char>)
    requires
        s.len() > 0 ==> !is_white_space(s[0]),
    ensures
        trim_end(s).len() > 0 ==> !is_white_space(trim_end(s).last()) && !is_white_space(trim_end(s)[0]),
    decreases s.len(),
{
    if s.len() > 0 && is_white_space(s.last()) {
        lemma_trim_end_edges(s.drop_last());
    }
}

proof fn lemma_trim_edges(p: Seq<char>)
    ensures
        trim(p).len() > 0 ==> !is_white_space(trim(p)[0]) && !is_white_space(trim(p).last()),
{
    lemma_trim_start_edge(p);
    lemma_trim_end_edges(trim_start(p));
}

proof fn lemma_keep_nonempty(pieces: Seq<Seq<char>>)
    requires
        forall|j: int|
            0 <= j < pieces.len() ==> {
                let v = #[trigger] pieces[j];
                v.len() > 0 ==> !is_white_space(v[0]) && !is_white_space(v.last())
            },
    ensures
        forall|i: int|
            0 <= i < keep_nonempty(pieces).len() ==> {
                let v = #[trigger] keep_nonempty(pieces)[i];
                v.len() > 0 && !is_white_space(v[0]) && !is_white_space(v.last())
            },
    decreases pieces.len(),
{
    if pieces.len() > 0 {
        lemma_keep_nonempty(pieces.drop_last());
        let last = pieces.last();
        assert(pieces[pieces.len() - 1] == last);
        let prev = keep_nonempty(pieces.drop_last());
        assert forall|i: int| 0 <= i < keep_nonempty(pieces).len() implies {
            let v = #[trigger] keep_nonempty(pieces)[i];
            v.len() > 0 && !is_white_space(v[0]) && !is_white_space(v.last())
        } by {
            if i < prev.len() {
                assert(keep_nonempty(pieces)[i] == prev[i]);
            } else {
                assert(keep_nonempty(pieces)[i] == last);
            }
        }
    }
}


/// A train/test split holds each sample once: every position below the
/// sample count lies on exactly one side, no other value lies on either,
/// and no position is repeated.
pub proof fn lemma_split_holds_each_sample_once(n: nat, test: Seq<usize>, train: Seq<usize>)
    requires
        n <= usize::MAX,
        (test + train).to_multiset() == positions_upto(n).to_multiset(),
    ensures
        forall|x: usize|
            #[trigger] (test + train).to_multiset().count(x) == if x < n {
                1nat
            } else {
                0nat
            },
        (test + train).len() == n,
        (test + train).no_duplicates(),
{
    broadcast use vstd::seq_lib::group_to_multiset_ensures;

    let all = positions_upto(n);
    let sides = test + train;
    assert forall|i: int, j: int| 0 <= i < all.len() && 0 <= j < all.len() && i != j implies all[i]
        != all[j] by {
        assert(all[i] == i as usize && all[j] == j as usize);
    }
    assert(all.no_duplicates());
    all.lemma_multiset_has_no_duplicates();
    assert forall|x: usize| #[trigger] sides.to_multiset().count(x) == if x < n {
        1nat
    } else {
        0nat
    } by {
        if x < n {
            assert(all[x as int] == x);
            assert(all.contains(x));
        } else {
            assert(!all.contains(x));
        }
    }
    assert(sides.len() == sides.to_multiset().len());
    assert(all.len() == all.to_multiset().len());
    sides.lemma_multiset_has_no_duplicates_conv();
}

/// The vote has one outcome: two outcomes for the same neighbours are the
/// same label (or both none).
pub proof fn lemma_vote_outcome_unique(
    scores: Seq<Similarity>,
    labels: Seq<usize>,
    a: Option<usize>,
    b: Option<usize>,
)
    requires
        is_vote_outcome(scores, labels, a),
        is_vote_outcome(scores, labels, b),
    ensures
        a == b,
{
    if a is Some && b is Some {
        let w1 = a->0;
        let w2 = b->0;
        if w1 != w2 {
            lemma_first_vote_exists(labels, w1);
            lemma_first_vote_exists(labels, w2);
            let p1 = first_vote(labels, w1);
            let p2 = first_vote(labels, w2);
            if p1 < p2 {
                assert(outvotes(scores, labels, w2, labels[p1]));
                assert(!outvotes(scores, labels, labels[p2], w1));
            } else {
                assert(p2 < p1);
                assert(outvotes(scores, labels, w1, labels[p2]));
                assert(!outvotes(scores, labels, labels[p1], w2));
            }
        }
    } else if a is Some {
        assert(labels.contains(a->0));
    } else if b is Some {
        assert(labels.contains(b->0));
    }
}

/// A seed gives a fixed split: two splits of the same number of samples,
/// with the same test count and seed, are the same.
pub proof fn lemma_split_follows_seed(
    n: nat,
    test_count: usize,
    seed: u64,
    first: (Seq<usize>, Seq<usize>),
    second: (Seq<usize>, Seq<usize>),
)
    requires
        first.0 == seeded_order(positions_upto(n), seed).take(cut_at(test_count, n)),
        first.1 == seeded_order(positions_upto(n), seed).skip(cut_at(test_count, n)),
        second.0 == seeded_order(positions_upto(n), seed).take(cut_at(test_count, n)),
        second.1 == seeded_order(positions_upto(n), seed).skip(cut_at(test_count, n)),
    ensures
        first == second,
{
}

/// Under the halving schedule the first access trains at the full rate and
/// each later access, until the weight freezes, at half the rate of the one
/// before: a weight accessed `a` times trains at `2^-a` while `a` is below
/// `freeze_after`, and not at all from then on. Without decay every access
/// trains at the full rate.
pub proof fn lemma_patent_halving_halves_each_access(freeze_after: u32, a: u32)
    ensures
        plasticity_halvings_spec(PlasticitySchedule::NoDecay, a) == Some(0u32),
        a < freeze_after ==> plasticity_halvings_spec(
            PlasticitySchedule::PatentHalving { freeze_after },
            a,
        ) == Some(a),
        a >= freeze_after ==> plasticity_halvings_spec(
            PlasticitySchedule::PatentHalving { freeze_after },
            a,
        ) is None,
        0 < freeze_after ==> plasticity_halvings_spec(
            PlasticitySchedule::PatentHalving { freeze_after },
            0,
        ) == Some(0u32),
        a + 1 < freeze_after ==> plasticity_halvings_spec(
            PlasticitySchedule::PatentHalving { freeze_after },
            (a + 1) as u32,
        )->0 == plasticity_halvings_spec(PlasticitySchedule::PatentHalving { freeze_after }, a)->0
            + 1,
{
}

/// The spatial grid splits the width and the height into four equal bands:
/// a pixel inside the image lies in the column `cx` with
/// `cx * width <= 4 * x < (cx + 1) * width` and the row `cy` with
/// `cy * height <= 4 * y < (cy + 1) * height`, and its cell is `cy * 4 + cx`;
/// a pixel past the right or bottom edge falls in the last column or row.
pub proof fn lemma_spatial_cell_bands(x: nat, y: nat, width: nat, height: nat)
    requires
        width > 0,
        height > 0,
    ensures
        spatial_cell_of(x, y, width, height) < 16,
        ({
            let cx = spatial_cell_of(x, y, width, height) % 4;
            let cy = spatial_cell_of(x, y, width, height) / 4;
            &&& x < width ==> cx * width <= 4 * x < (cx + 1) * width
            &&& y < height ==> cy * height <= 4 * y < (cy + 1) * height
            &&& x >= width ==> cx == 3
            &&& y >= height ==> cy == 3
        }),
{
    let qx = x * 4 / width;
    let qy = y * 4 / height;
    assert(qx * width <= x * 4 < (qx + 1) * width) by (nonlinear_arith)
        requires
            width > 0,
            qx == x * 4 / width,
    {
        vstd::arithmetic::div_mod::lemma_fundamental_div_mod((x * 4) as int, width as int);
    }
    assert(qy * height <= y * 4 < (qy + 1) * height) by (nonlinear_arith)
        requires
            height > 0,
            qy == y * 4 / height,
    {
        vstd::arithmetic::div_mod::lemma_fundamental_div_mod((y * 4) as int, height as int);
    }
    assert(x < width ==> qx < 4) by (nonlinear_arith)
        requires
            qx * width <= x * 4,
            width > 0,
    ;
    assert(y < height ==> qy < 4) by (nonlinear_arith)
        requires
            qy * height <= y * 4,
            height > 0,
    ;
    assert(x >= width ==> qx >= 4) by (nonlinear_arith)
        requires
            x * 4 < (qx + 1) * width,
            width > 0,
    ;
    assert(y >= height ==> qy >= 4) by (nonlinear_arith)
        requires
            y * 4 < (qy + 1) * height,
            height > 0,
    ;
    let cx: nat = if qx < 3 { qx } else { 3 };
    let cy: nat = if qy < 3 { qy } else { 3 };
    assert(spatial_cell_of(x, y, width, height) == cy * 4 + cx);
    assert((cy * 4 + cx) % 4 == cx && (cy * 4 + cx) / 4 == cy) by (nonlinear_arith)
        requires
            cx < 4,
    ;
}

/// A table row whose cells are the given texts, each in a `tag` element.
pub open spec fn cells_row(tag: Seq<char>, cells: Seq<Seq<char>>) -> Seq<char> {
    "<tr>"@ + concat_texts(
        cells.map_values(|c: Seq<char>| "<"@ + tag + ">"@ + c + "</"@ + tag + ">"@),
    ) + "</tr>"@
}

/// The cells of a resize disagreement, in the order the table's header
/// names them.
pub open spec fn resize_cells(d: ResizeDisagreement) -> Seq<Seq<char>> {
    seq![
        html_text(d.path@),
        html_text(d.expected_label@),
        html_text(d.artifact_prediction@),
        html_text(d.alternate_predictions@),
    ]
}

/// The Resize Sensitivity table has the header Sample, Expected, Artifact
/// Prediction, Resize Predictions, and under it one row per disagreement (at
/// most fifty) whose cells are, in that order, the sample's path, its
/// expected label, the artifact's prediction and the predictions of the
/// other resize modes, each escaped.
pub proof fn lemma_resize_table_columns(ds: Seq<ResizeDisagreement>)
    requires
        ds.len() > 0,
    ensures
        ({
            let shown = if ds.len() <= 50 {
                ds
            } else {
                ds.take(50)
            };
            disagreement_section(ds) == "<section><h2>Resize Sensitivity</h2><table>"@ + cells_row(
                "th"@,
                seq!["Sample"@, "Expected"@, "Artifact Prediction"@, "Resize Predictions"@],
            ) + concat_texts(
                shown.map_values(|d: ResizeDisagreement| cells_row("td"@, resize_cells(d))),
            ) + "</table></section>"@
        }),
{
    let shown = if ds.len() <= 50 {
        ds
    } else {
        ds.take(50)
    };
    reveal_strlit("<tr><td>");
    reveal_strlit("</td><td>");
    reveal_strlit("</td></tr>");
    reveal_strlit("<tr>");
    reveal_strlit("</tr>");
    reveal_strlit("<");
    reveal_strlit(">");
    reveal_strlit("</");
    reveal_strlit("td");
    reveal_strlit("th");
    assert forall|d: ResizeDisagreement| #[trigger] disagreement_row(d) == cells_row("td"@, resize_cells(d)) by {
        lemma_cells_row_of_four("td"@, resize_cells(d));
        reveal(disagreement_row);
        assert(disagreement_row(d) =~= cells_row("td"@, resize_cells(d)));
    }
    assert(shown.map_values(|d: ResizeDisagreement| disagreement_row(d)) =~= shown.map_values(
        |d: ResizeDisagreement| cells_row("td"@, resize_cells(d)),
    ));
    let names = seq!["Sample"@, "Expected"@, "Artifact Prediction"@, "Resize Predictions"@];
    lemma_cells_row_of_four("th"@, names);
    reveal_strlit("<section><h2>Resize Sensitivity</h2><table><tr><th>Sample</th><th>Expected</th><th>Artifact Prediction</th><th>Resize Predictions</th></tr>");
    reveal_strlit("<section><h2>Resize Sensitivity</h2><table>");
    reveal_strlit("Sample");
    reveal_strlit("Expected");
    reveal_strlit("Artifact Prediction");
    reveal_strlit("Resize Predictions");
    assert("<section><h2>Resize Sensitivity</h2><table><tr><th>Sample</th><th>Expected</th><th>Artifact Prediction</th><th>Resize Predictions</th></tr>"@
        =~= "<section><h2>Resize Sensitivity</h2><table>"@ + cells_row("th"@, names));
}

/// A row of four cells, written out.
proof fn lemma_cells_row_of_four(tag: Seq<char>, cells: Seq<Seq<char>>)
    requires
        cells.len() == 4,
    ensures
        cells_row(tag, cells) == "<tr>"@ + ("<"@ + tag + ">"@ + cells[0] + "</"@ + tag + ">"@) + (
        "<"@ + tag + ">"@ + cells[1] + "</"@ + tag + ">"@) + ("<"@ + tag + ">"@ + cells[2] + "</"@
            + tag + ">"@) + ("<"@ + tag + ">"@ + cells[3] + "</"@ + tag + ">"@) + "</tr>"@,
{
    let parts = cells.map_values(|c: Seq<char>| "<"@ + tag + ">"@ + c + "</"@ + tag + ">"@);
    reveal_with_fuel(concat_texts, 5);
    assert(parts.drop_last().drop_last().drop_last().drop_last() =~= Seq::<Seq<char>>::empty());
    assert(concat_texts(parts) =~= parts[0] + parts[1] + parts[2] + parts[3]);
    assert(cells_row(tag, cells) =~= "<tr>"@ + parts[0] + parts[1] + parts[2] + parts[3] + "</tr>"@);
}

/// The cells of a ranked sample, in the order the table's header names them.
pub open spec fn ranked_cells(r: RankedRowText) -> Seq<Seq<char>> {
    seq![html_text(r.path@), html_text(r.expected_label@), html_text(r.predicted_label@), r.score_margin@]
}

/// A table of ranked wrong samples has the header Sample, Expected,
/// Predicted, Margin, and one row per sample whose cells are, in that order,
/// its path, its expected label, the predicted label (each escaped) and the
/// score margin.
pub proof fn lemma_ranked_table_columns(rows: Seq<RankedRowText>)
    ensures
        ranked_table(rows) == "<table>"@ + cells_row(
            "th"@,
            seq!["Sample"@, "Expected"@, "Predicted"@, "Margin"@],
        ) + concat_texts(rows.map_values(|r: RankedRowText| cells_row("td"@, ranked_cells(r))))
            + "</table>"@,
{
    reveal_strlit("<tr><td>");
    reveal_strlit("</td><td>");
    reveal_strlit("</td></tr>");
    reveal_strlit("<tr>");
    reveal_strlit("</tr>");
    reveal_strlit("<");
    reveal_strlit(">");
    reveal_strlit("</");
    reveal_strlit("td");
    reveal_strlit("th");
    assert forall|r: RankedRowText| #[trigger] ranked_row(r) == cells_row("td"@, ranked_cells(r)) by {
        lemma_cells_row_of_four("td"@, ranked_cells(r));
        reveal(ranked_row);
        assert(ranked_row(r) =~= cells_row("td"@, ranked_cells(r)));
    }
    assert(rows.map_values(|r: RankedRowText| ranked_row(r)) =~= rows.map_values(
        |r: RankedRowText| cells_row("td"@, ranked_cells(r)),
    ));
    let names = seq!["Sample"@, "Expected"@, "Predicted"@, "Margin"@];
    lemma_cells_row_of_four("th"@, names);
    reveal_strlit("<table><tr><th>Sample</th><th>Expected</th><th>Predicted</th><th>Margin</th></tr>");
    reveal_strlit("<table>");
    reveal_strlit("Sample");
    reveal_strlit("Expected");
    reveal_strlit("Predicted");
    reveal_strlit("Margin");
    assert("<table><tr><th>Sample</th><th>Expected</th><th>Predicted</th><th>Margin</th></tr>"@
        =~= "<table>"@ + cells_row("th"@, names));
}

/// The cells of a failure bucket, in the order the table's header names
/// them.
pub open spec fn bucket_cells(b: BucketRowText) -> Seq<Seq<char>> {
    seq![
        html_text(b.bucket_group@),
        html_text(b.bucket@),
        decimal_text(b.total as nat),
        decimal_text(b.wrong as nat),
        b.wrong_rate_percent@ + "%"@,
    ]
}

/// The Failure Buckets table has the header Group, Bucket, Total, Wrong,
/// Wrong Rate, and one row per bucket whose cells are, in that order, its
/// group and name (escaped), the samples in it and the wrong ones among them
/// in decimal, and the wrong rate in percent.
pub proof fn lemma_bucket_table_columns(rows: Seq<BucketRowText>)
    ensures
        bucket_section(rows) == "<section><h2>Failure Buckets</h2><table>"@ + cells_row(
            "th"@,
            seq!["Group"@, "Bucket"@, "Total"@, "Wrong"@, "Wrong Rate"@],
        ) + concat_texts(rows.map_values(|b: BucketRowText| cells_row("td"@, bucket_cells(b))))
            + "</table></section>"@,
{
    reveal_strlit("<tr><td>");
    reveal_strlit("</td><td>");
    reveal_strlit("%</td></tr>");
    reveal_strlit("%");
    reveal_strlit("<tr>");
    reveal_strlit("</tr>");
    reveal_strlit("<");
    reveal_strlit(">");
    reveal_strlit("</");
    reveal_strlit("td");
    reveal_strlit("th");
    assert forall|b: BucketRowText| #[trigger] bucket_row(b) == cells_row("td"@, bucket_cells(b)) by {
        lemma_cells_row_of_five("td"@, bucket_cells(b));
        reveal(bucket_row);
        assert(bucket_row(b) =~= cells_row("td"@, bucket_cells(b)));
    }
    assert(rows.map_values(|b: BucketRowText| bucket_row(b)) =~= rows.map_values(
        |b: BucketRowText| cells_row("td"@, bucket_cells(b)),
    ));
    let names = seq!["Group"@, "Bucket"@, "Total"@, "Wrong"@, "Wrong Rate"@];
    lemma_cells_row_of_five("th"@, names);
    reveal_strlit("<section><h2>Failure Buckets</h2><table><tr><th>Group</th><th>Bucket</th><th>Total</th><th>Wrong</th><th>Wrong Rate</th></tr>");
    reveal_strlit("<section><h2>Failure Buckets</h2><table>");
    reveal_strlit("Group");
    reveal_strlit("Bucket");
    reveal_strlit("Total");
    reveal_strlit("Wrong");
    reveal_strlit("Wrong Rate");
    assert("<section><h2>Failure Buckets</h2><table><tr><th>Group</th><th>Bucket</th><th>Total</th><th>Wrong</th><th>Wrong Rate</th></tr>"@
        =~= "<section><h2>Failure Buckets</h2><table>"@ + cells_row("th"@, names));
}

/// The cells of a class's accuracy, in the order the table's header names
/// them.
pub open spec fn class_cells(c: ClassRowText) -> Seq<Seq<char>> {
    seq![
        html_text(c.class_name@),
        decimal_text(c.correct as nat),
        decimal_text(c.total as nat),
        c.accuracy_percent@ + "%"@,
    ]
}

/// The Per-Class Accuracy table has the header Class, Correct, Total,
/// Accuracy, and one row per class whose cells are, in that order, its name
/// (escaped), its correct and its total predictions in decimal, and its
/// accuracy in percent.
pub proof fn lemma_class_table_columns(rows: Seq<ClassRowText>)
    ensures
        class_section(rows) == "<section><h2>Per-Class Accuracy</h2><table>"@ + cells_row(
            "th"@,
            seq!["Class"@, "Correct"@, "Total"@, "Accuracy"@],
        ) + concat_texts(rows.map_values(|c: ClassRowText| cells_row("td"@, class_cells(c))))
            + "</table></section>"@,
{
    reveal_strlit("<tr><td>");
    reveal_strlit("</td><td>");
    reveal_strlit("%</td></tr>");
    reveal_strlit("%");
    reveal_strlit("<tr>");
    reveal_strlit("</tr>");
    reveal_strlit("<");
    reveal_strlit(">");
    reveal_strlit("</");
    reveal_strlit("td");
    reveal_strlit("th");
    assert forall|c: ClassRowText| #[trigger] class_row(c) == cells_row("td"@, class_cells(c)) by {
        lemma_cells_row_of_four("td"@, class_cells(c));
        reveal(class_row);
        assert(class_row(c) =~= cells_row("td"@, class_cells(c)));
    }
    assert(rows.map_values(|c: ClassRowText| class_row(c)) =~= rows.map_values(
        |c: ClassRowText| cells_row("td"@, class_cells(c)),
    ));
    let names = seq!["Class"@, "Correct"@, "Total"@, "Accuracy"@];
    lemma_cells_row_of_four("th"@, names);
    reveal_strlit("<section><h2>Per-Class Accuracy</h2><table><tr><th>Class</th><th>Correct</th><th>Total</th><th>Accuracy</th></tr>");
    reveal_strlit("<section><h2>Per-Class Accuracy</h2><table>");
    reveal_strlit("Class");
    reveal_strlit("Correct");
    reveal_strlit("Total");
    reveal_strlit("Accuracy");
    assert("<section><h2>Per-Class Accuracy</h2><table><tr><th>Class</th><th>Correct</th><th>Total</th><th>Accuracy</th></tr>"@
        =~= "<section><h2>Per-Class Accuracy</h2><table>"@ + cells_row("th"@, names));
}

/// A row of five cells, written out.
proof fn lemma_cells_row_of_five(tag: Seq<char>, cells: Seq<Seq<char>>)
    requires
        cells.len() == 5,
    ensures
        cells_row(tag, cells) == "<tr>"@ + ("<"@ + tag + ">"@ + cells[0] + "</"@ + tag + ">"@) + (
        "<"@ + tag + ">"@ + cells[1] + "</"@ + tag + ">"@) + ("<"@ + tag + ">"@ + cells[2] + "</"@
            + tag + ">"@) + ("<"@ + tag + ">"@ + cells[3] + "</"@ + tag + ">"@) + ("<"@ + tag + ">"@
            + cells[4] + "</"@ + tag + ">"@) + "</tr>"@,
{
    let parts = cells.map_values(|c: Seq<char>| "<"@ + tag + ">"@ + c + "</"@ + tag + ">"@);
    reveal_with_fuel(concat_texts, 6);
    assert(parts.drop_last().drop_last().drop_last().drop_last().drop_last() =~= Seq::<Seq<char>>::empty());
    assert(concat_texts(parts) =~= parts[0] + parts[1] + parts[2] + parts[3] + parts[4]);
    assert(cells_row(tag, cells) =~= "<tr>"@ + parts[0] + parts[1] + parts[2] + parts[3] + parts[4]
        + "</tr>"@);
}

} // verus!
