//! The integer choices of an evolutionary search: distinct values in the
//! order they were given, the fallbacks that keep every choice list
//! non-empty, and the counts a run is normalized to.
use vstd::prelude::*;

verus! {

/// The values with later repeats removed, in the order of first occurrence.
pub open spec fn distinct_in_order<T>(s: Seq<T>) -> Seq<T>
    decreases s.len(),
{
    if s.len() == 0 {
        Seq::empty()
    } else {
        let d = distinct_in_order(s.drop_last());
        if d.contains(s.last()) {
            d
        } else {
            d.push(s.last())
        }
    }
}

/// Keeps the first occurrence of each value, in order.
pub fn distinct_u64(values: &Vec<u64>) -> (r: Vec<u64>)
    ensures
        r@ == distinct_in_order(values@),
{
    let mut out: Vec<u64> = Vec::new();
    let mut i: usize = 0;
    while i < values.len()
        invariant
            i <= values@.len(),
            out@ == distinct_in_order(values@.take(i as int)),
        decreases values@.len() - i,
    {
        let v = values[i];
        let mut j: usize = 0;
        let mut seen = false;
        while j < out.len()
            invariant
                j <= out@.len(),
                seen <==> exists|k: int| 0 <= k < j && out@[k] == v,
            decreases out@.len() - j,
        {
            if out[j] == v {
                seen = true;
            }
            j = j + 1;
        }
        proof {
            assert(values@.take(i + 1).drop_last() =~= values@.take(i as int));
            assert(values@.take(i + 1).last() == v);
            if seen {
                let k = choose|k: int| 0 <= k < j && out@[k] == v;
                assert(out@.contains(v));
            } else {
                assert(!out@.contains(v));
            }
        }
        if !seen {
            out.push(v);
        }
        i = i + 1;
    }
    assert(values@.take(i as int) =~= values@);
    out
}

/// The values that are positive, in order.
pub open spec fn positives(s: Seq<u64>) -> Seq<u64> {
    s.filter(|x: u64| x > 0)
}

/// The choices of a list of sizes: the fallback when none is given, then
/// the positive values without repeats, and the fallback again when none is
/// left.
pub open spec fn positive_choices(values: Seq<u64>, fallback: u64) -> Seq<u64> {
    let given = if values.len() == 0 {
        seq![fallback]
    } else {
        values
    };
    let kept = distinct_in_order(positives(given));
    if kept.len() == 0 {
        seq![fallback]
    } else {
        kept
    }
}

fn positives_of(values: &Vec<u64>) -> (r: Vec<u64>)
    ensures
        r@ == positives(values@),
{
    let mut out: Vec<u64> = Vec::new();
    let mut i: usize = 0;
    while i < values.len()
        invariant
            i <= values@.len(),
            out@ == positives(values@.take(i as int)),
        decreases values@.len() - i,
    {
        proof {
            let s = values@.take(i + 1);
            assert(s.drop_last() =~= values@.take(i as int));
            assert(s.last() == values@[i as int]);
            reveal(Seq::filter);
        }
        if values[i] > 0 {
            out.push(values[i]);
        }
        i = i + 1;
    }
    assert(values@.take(i as int) =~= values@);
    out
}

/// The choices of a list of sizes, as `positive_choices` states.
pub fn choose_positive(values: &Vec<u64>, fallback: u64) -> (r: Vec<u64>)
    ensures
        r@ == positive_choices(values@, fallback),
{
    let given = if values.len() == 0 {
        let mut v: Vec<u64> = Vec::new();
        v.push(fallback);
        v
    } else {
        values.clone()
    };
    assert(given@ == (if values@.len() == 0 {
        seq![fallback]
    } else {
        values@
    }));
    let kept = distinct_u64(&positives_of(&given));
    if kept.len() == 0 {
        let mut v: Vec<u64> = Vec::new();
        v.push(fallback);
        v
    } else {
        kept
    }
}

/// The top-k choices: the fallback when none is given, each value raised
/// to at least one, repeats removed.
pub open spec fn top_k_choices(values: Seq<u64>, fallback: Seq<u64>) -> Seq<u64> {
    let given = if values.len() == 0 {
        fallback
    } else {
        values
    };
    distinct_in_order(given.map_values(|x: u64| if x < 1 { 1 } else { x }))
}

/// The top-k choices of a search, as `top_k_choices` states.
pub fn choose_top_k(values: &Vec<u64>, fallback: &Vec<u64>) -> (r: Vec<u64>)
    ensures
        r@ == top_k_choices(values@, fallback@),
{
    let given = if values.len() == 0 {
        fallback
    } else {
        values
    };
    let mut raised: Vec<u64> = Vec::new();
    let mut i: usize = 0;
    while i < given.len()
        invariant
            i <= given@.len(),
            raised@ == given@.take(i as int).map_values(|x: u64| if x < 1 { 1 } else { x }),
        decreases given@.len() - i,
    {
        let x = given[i];
        raised.push(if x < 1 { 1 } else { x });
        assert(raised@ =~= given@.take(i + 1).map_values(|x: u64| if x < 1 { 1 } else { x }));
        i = i + 1;
    }
    assert(given@.take(i as int) =~= given@);
    distinct_u64(&raised)
}

/// The counts of an evolutionary run.
#[derive(Debug, Clone, Copy, PartialEq, Eq, Structural)]
pub struct EvolutionCounts {
    pub population_size: usize,
    pub generations: usize,
    pub elite_count: usize,
    pub seed: u64,
    pub threads: usize,
}

pub open spec fn clamp(x: int, lo: int, hi: int) -> int {
    if x < lo {
        lo
    } else if x > hi {
        hi
    } else {
        x
    }
}

/// The counts a run uses: a population of at least two, at least one
/// generation, between one elite and one less than the population, and
/// between one thread and one per genome; zero threads asks for the
/// `available` parallelism.
pub open spec fn normalized_counts(c: EvolutionCounts, available: usize) -> EvolutionCounts {
    let population_size: usize = if c.population_size < 2 {
        2
    } else {
        c.population_size
    };
    EvolutionCounts {
        population_size,
        generations: if c.generations < 1 {
            1
        } else {
            c.generations
        },
        elite_count: clamp(c.elite_count as int, 1, population_size - 1) as usize,
        seed: c.seed,
        threads: clamp(
            if c.threads == 0 {
                available as int
            } else {
                c.threads as int
            },
            1,
            population_size as int,
        ) as usize,
    }
}

impl EvolutionCounts {
    /// The counts a run uses, as `normalized_counts` states.
    pub fn normalized(self, available: usize) -> (r: Self)
        ensures
            r == normalized_counts(self, available),
    {
        let threads = if self.threads == 0 {
            available
        } else {
            self.threads
        };
        let population_size = if self.population_size < 2 {
            2
        } else {
            self.population_size
        };
        let elite_count = if self.elite_count < 1 {
            1
        } else if self.elite_count > population_size - 1 {
            population_size - 1
        } else {
            self.elite_count
        };
        let threads = if threads < 1 {
            1
        } else if threads > population_size {
            population_size
        } else {
            threads
        };
        EvolutionCounts {
            population_size,
            generations: if self.generations < 1 {
                1
            } else {
                self.generations
            },
            elite_count,
            seed: self.seed,
            threads,
        }
    }
}

} // verus!
