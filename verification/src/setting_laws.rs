//! Properties of the run settings and of the search choices that relate
//! several operations.
use vstd::prelude::*;

use crate::analysis::{debug_selection, first_n, positions_where};
use crate::cli::{DebugSamples, default_source_map, inline_config_path, is_config_flag, ArgFault, ConfigSource};
use crate::config::{config_run, config_slot, entry_setting, resolve_run, BenchConfig, CONFIG_FIELD_COUNT};
use crate::metrics::append_unique;
use crate::search_space::{
    distinct_in_order, normalized_counts, positive_choices, positives, EvolutionCounts,
};
use crate::settings::{
    assign, cli_run, default_model, fits, setting_of, flag_rule, flag_setting, mark, read_setting,
    ArgsModel, FlagRule, SettingKind, SettingValue,
};
use crate::numbers::{digit_value, parse_unsigned, scan_digits, NumberFault};
use crate::text::{decimal_char, decimal_text, has_prefix};

verus! {

/// Removing repeats keeps exactly the values that occur, each once.
pub proof fn lemma_distinct_in_order<T>(s: Seq<T>)
    ensures
        forall|x: T| distinct_in_order(s).contains(x) <==> s.contains(x),
        forall|i: int, j: int|
            0 <= i < j < distinct_in_order(s).len() ==> distinct_in_order(s)[i]
                != distinct_in_order(s)[j],
    decreases s.len(),
{
    if s.len() > 0 {
        let rest = s.drop_last();
        lemma_distinct_in_order(rest);
        let d = distinct_in_order(rest);
        let last = s.last();
        let out = distinct_in_order(s);
        assert forall|x: T| out.contains(x) <==> s.contains(x) by {
            if s.contains(x) {
                let k = choose|k: int| 0 <= k < s.len() && s[k] == x;
                if k < s.len() - 1 {
                    assert(rest[k] == x);
                    assert(rest.contains(x));
                    assert(d.contains(x));
                    let w = choose|w: int| 0 <= w < d.len() && d[w] == x;
                    if !d.contains(last) {
                        assert(out[w] == x);
                    }
                } else {
                    if !d.contains(last) {
                        assert(out[d.len() as int] == x);
                    }
                }
            }
            if out.contains(x) {
                let w = choose|w: int| 0 <= w < out.len() && out[w] == x;
                if w < d.len() {
                    assert(d[w] == x);
                    assert(d.contains(x));
                    assert(rest.contains(x));
                    let k = choose|k: int| 0 <= k < rest.len() && rest[k] == x;
                    assert(s[k] == x);
                } else {
                    assert(s[s.len() - 1] == x);
                }
            }
        }
        assert forall|i: int, j: int| 0 <= i < j < out.len() implies out[i] != out[j] by {
            if j == d.len() {
                assert(out[j] == last);
                assert(out[i] == d[i]);
                assert(!d.contains(last));
            }
        }
    }
}

/// Normalizing counts a second time changes nothing, whatever parallelism
/// is then available.
pub proof fn lemma_counts_normalized_once(c: EvolutionCounts, first: usize, second: usize)
    ensures
        normalized_counts(normalized_counts(c, first), second) == normalized_counts(c, first),
{
}

/// The counts a run uses keep every configured count that is already in
/// range, and move one out of range to the nearest bound: the population is
/// at least two, the generations at least one, the elites between one and
/// one less than the population (so at least one genome is bred each
/// generation), and the threads between one and one per genome, zero
/// threads asking for the available parallelism.
pub proof fn lemma_counts_keep_what_is_in_range(c: EvolutionCounts, available: usize)
    ensures
        ({
            let r = normalized_counts(c, available);
            &&& r.population_size == if c.population_size >= 2 {
                c.population_size
            } else {
                2
            }
            &&& r.generations == if c.generations >= 1 {
                c.generations
            } else {
                1
            }
            &&& 1 <= r.elite_count < r.population_size
            &&& 1 <= c.elite_count < r.population_size ==> r.elite_count == c.elite_count
            &&& c.elite_count == 0 ==> r.elite_count == 1
            &&& c.elite_count >= r.population_size ==> r.elite_count == r.population_size - 1
            &&& 1 <= r.threads <= r.population_size
            &&& c.threads > 0 && c.threads <= r.population_size ==> r.threads == c.threads
            &&& c.threads == 0 && 1 <= available <= r.population_size ==> r.threads == available
            &&& r.seed == c.seed
        }),
{
}

/// No assignment of a setting of kind `k` changes what `proj` reads.
pub open spec fn leaves<X>(k: SettingKind, proj: spec_fn(ArgsModel) -> X) -> bool {
    forall|m: ArgsModel, v: SettingValue| #[trigger] proj(assign(m, k, v)) == proj(m)
}

/// No configuration field from the `j`-th on changes what `proj` reads.
pub open spec fn later_fields_leave<X>(c: BenchConfig, j: int, proj: spec_fn(ArgsModel) -> X) -> bool {
    forall|i: int|
        j <= i < CONFIG_FIELD_COUNT ==> (#[trigger] config_slot(c, i) matches Some((k, e)) ==> leaves(
            k,
            proj,
        ))
}

/// Fields that leave what `proj` reads leave it as it was.
proof fn lemma_config_run_keeps<X>(
    m: ArgsModel,
    s: Map<Seq<char>, ConfigSource>,
    c: BenchConfig,
    j: int,
    proj: spec_fn(ArgsModel) -> X,
)
    requires
        0 <= j,
        later_fields_leave(c, j, proj),
    ensures
        proj(config_run(m, s, c, j).0) == proj(m),
    decreases CONFIG_FIELD_COUNT - j,
{
    if j < CONFIG_FIELD_COUNT {
        match config_slot(c, j) {
            None => lemma_config_run_keeps(m, s, c, j + 1, proj),
            Some((k, e)) => match entry_setting(k, e) {
                Ok(v) => {
                    assert(leaves(k, proj));
                    assert(proj(assign(m, k, v)) == proj(m));
                    lemma_config_run_keeps(assign(m, k, v), mark(s, k, ConfigSource::Config), c, j + 1, proj);
                },
                Err(_) => {},
            },
        }
    }
}

/// A run of the configuration from the `i`-th field that is not refused
/// passes through the `j`-th field with some settings.
proof fn lemma_config_run_reaches(
    m: ArgsModel,
    s: Map<Seq<char>, ConfigSource>,
    c: BenchConfig,
    i: int,
    j: int,
) -> (r: (ArgsModel, Map<Seq<char>, ConfigSource>))
    requires
        0 <= i <= j <= CONFIG_FIELD_COUNT,
        config_run(m, s, c, i).2 is None,
    ensures
        config_run(m, s, c, i) == config_run(r.0, r.1, c, j),
    decreases j - i,
{
    if i == j {
        (m, s)
    } else {
        match config_slot(c, i) {
            None => lemma_config_run_reaches(m, s, c, i + 1, j),
            Some((k, e)) => match entry_setting(k, e) {
                Ok(v) => lemma_config_run_reaches(assign(m, k, v), mark(s, k, ConfigSource::Config), c, i + 1, j),
                Err(_) => (m, s),
            },
        }
    }
}

/// When the `j`-th field is present and gives what `proj` reads the value
/// `x`, and no later field changes it, a configuration that is not refused
/// leaves `x` there.
proof fn lemma_config_field_decides<X>(
    m: ArgsModel,
    s: Map<Seq<char>, ConfigSource>,
    c: BenchConfig,
    j: int,
    proj: spec_fn(ArgsModel) -> X,
    x: X,
)
    requires
        0 <= j < CONFIG_FIELD_COUNT,
        config_run(m, s, c, 0).2 is None,
        config_slot(c, j) matches Some((k, e)) && (entry_setting(k, e) matches Ok(v) ==> forall|m2: ArgsModel|
            #[trigger] proj(assign(m2, k, v)) == x),
        later_fields_leave(c, j + 1, proj),
    ensures
        proj(config_run(m, s, c, 0).0) == x,
{
    let (m2, s2) = lemma_config_run_reaches(m, s, c, 0, j);
    match config_slot(c, j) {
        Some((k, e)) => match entry_setting(k, e) {
            Ok(v) => {
                assert(config_run(m2, s2, c, j) == config_run(
                    assign(m2, k, v),
                    mark(s2, k, ConfigSource::Config),
                    c,
                    j + 1,
                ));
                lemma_config_run_keeps(assign(m2, k, v), mark(s2, k, ConfigSource::Config), c, j + 1, proj);
            },
            Err(_) => {},
        },
        None => {},
    }
}

/// Settles what the `j`-th field leaves in the part of the settings `proj`
/// reads: the value `given` names when the field is present, and what was
/// there before when it is absent.
proof fn lemma_field_or_unchanged<X>(
    m: ArgsModel,
    s: Map<Seq<char>, ConfigSource>,
    c: BenchConfig,
    j: int,
    proj: spec_fn(ArgsModel) -> X,
    given: Option<X>,
)
    requires
        0 <= j < CONFIG_FIELD_COUNT,
        config_run(m, s, c, 0).2 is None,
        given matches Some(x) ==> config_slot(c, j) matches Some((k, e)) && (entry_setting(k, e) matches Ok(v)
            ==> forall|m2: ArgsModel| #[trigger] proj(assign(m2, k, v)) == x),
        given is None ==> config_slot(c, j) is None,
        given is None ==> forall|i: int|
            0 <= i < j ==> (#[trigger] config_slot(c, i) matches Some((k, e)) ==> leaves(k, proj)),
        later_fields_leave(c, j + 1, proj),
    ensures
        proj(config_run(m, s, c, 0).0) == match given {
            Some(x) => x,
            None => proj(m),
        },
{
    match given {
        Some(x) => lemma_config_field_decides(m, s, c, j, proj, x),
        None => {
            assert(later_fields_leave(c, 0, proj));
            lemma_config_run_keeps(m, s, c, 0, proj);
        },
    }
}

/// The `epochs` field sets the setting of the same name.
proof fn lemma_config_epochs(m: ArgsModel, s: Map<Seq<char>, ConfigSource>, c: BenchConfig)
    requires
        config_run(m, s, c, 0).2 is None,
    ensures
        ({
            let out = config_run(m, s, c, 0).0;
            &&& c.epochs matches Some(v) ==> out.epochs == v
            &&& c.epochs is None ==> out.epochs == m.epochs
        }),
{
    reveal(config_slot);
    lemma_field_or_unchanged(m, s, c, 6, |a: ArgsModel| a.epochs, match c.epochs {
        Some(v) => Some(v as nat),
        None => None,
    });
}

/// The `intervals` field sets the setting of the same name.
proof fn lemma_config_intervals(m: ArgsModel, s: Map<Seq<char>, ConfigSource>, c: BenchConfig)
    requires
        config_run(m, s, c, 0).2 is None,
    ensures
        ({
            let out = config_run(m, s, c, 0).0;
            &&& c.intervals matches Some(v) ==> out.intervals == v
            &&& c.intervals is None ==> out.intervals == m.intervals
        }),
{
    reveal(config_slot);
    lemma_field_or_unchanged(m, s, c, 7, |a: ArgsModel| a.intervals, match c.intervals {
        Some(v) => Some(v as nat),
        None => None,
    });
}

/// The `seed` field sets the setting of the same name.
proof fn lemma_config_seed(m: ArgsModel, s: Map<Seq<char>, ConfigSource>, c: BenchConfig)
    requires
        config_run(m, s, c, 0).2 is None,
    ensures
        ({
            let out = config_run(m, s, c, 0).0;
            &&& c.seed matches Some(v) ==> out.seed == v
            &&& c.seed is None ==> out.seed == m.seed
        }),
{
    reveal(config_slot);
    lemma_field_or_unchanged(m, s, c, 9, |a: ArgsModel| a.seed, match c.seed {
        Some(v) => Some(v as nat),
        None => None,
    });
}

/// The `samples_per_class` field sets the setting of the same name.
proof fn lemma_config_samples_per_class(m: ArgsModel, s: Map<Seq<char>, ConfigSource>, c: BenchConfig)
    requires
        config_run(m, s, c, 0).2 is None,
    ensures
        ({
            let out = config_run(m, s, c, 0).0;
            &&& c.samples_per_class matches Some(v) ==> out.samples_per_class == v
            &&& c.samples_per_class is None ==> out.samples_per_class == m.samples_per_class
        }),
{
    reveal(config_slot);
    lemma_field_or_unchanged(m, s, c, 15, |a: ArgsModel| a.samples_per_class, match c.samples_per_class {
        Some(v) => Some(v as nat),
        None => None,
    });
}

/// The `top_k` field sets the setting of the same name.
proof fn lemma_config_top_k(m: ArgsModel, s: Map<Seq<char>, ConfigSource>, c: BenchConfig)
    requires
        config_run(m, s, c, 0).2 is None,
    ensures
        ({
            let out = config_run(m, s, c, 0).0;
            &&& c.top_k matches Some(v) ==> out.top_k == v
            &&& c.top_k is None ==> out.top_k == m.top_k
        }),
{
    reveal(config_slot);
    lemma_field_or_unchanged(m, s, c, 16, |a: ArgsModel| a.top_k, match c.top_k {
        Some(v) => Some(v as nat),
        None => None,
    });
}

/// The `matrix_top` field sets the setting of the same name.
proof fn lemma_config_matrix_top(m: ArgsModel, s: Map<Seq<char>, ConfigSource>, c: BenchConfig)
    requires
        config_run(m, s, c, 0).2 is None,
    ensures
        ({
            let out = config_run(m, s, c, 0).0;
            &&& c.matrix_top matches Some(v) ==> out.matrix_top == v
            &&& c.matrix_top is None ==> out.matrix_top == m.matrix_top
        }),
{
    reveal(config_slot);
    lemma_field_or_unchanged(m, s, c, 25, |a: ArgsModel| a.matrix_top, match c.matrix_top {
        Some(v) => Some(v as nat),
        None => None,
    });
}

/// The `debug_limit` field sets the setting of the same name.
proof fn lemma_config_debug_limit(m: ArgsModel, s: Map<Seq<char>, ConfigSource>, c: BenchConfig)
    requires
        config_run(m, s, c, 0).2 is None,
    ensures
        ({
            let out = config_run(m, s, c, 0).0;
            &&& c.debug_limit matches Some(v) ==> out.debug_limit == v
            &&& c.debug_limit is None ==> out.debug_limit == m.debug_limit
        }),
{
    reveal(config_slot);
    lemma_field_or_unchanged(m, s, c, 28, |a: ArgsModel| a.debug_limit, match c.debug_limit {
        Some(v) => Some(v as nat),
        None => None,
    });
}

/// The `debug_neighbors` field sets the setting of the same name.
proof fn lemma_config_debug_neighbors(m: ArgsModel, s: Map<Seq<char>, ConfigSource>, c: BenchConfig)
    requires
        config_run(m, s, c, 0).2 is None,
    ensures
        ({
            let out = config_run(m, s, c, 0).0;
            &&& c.debug_neighbors matches Some(v) ==> out.debug_neighbors == v
            &&& c.debug_neighbors is None ==> out.debug_neighbors == m.debug_neighbors
        }),
{
    reveal(config_slot);
    lemma_field_or_unchanged(m, s, c, 30, |a: ArgsModel| a.debug_neighbors, match c.debug_neighbors {
        Some(v) => Some(v as nat),
        None => None,
    });
}

/// The `population` field sets the setting of the same name.
proof fn lemma_config_population(m: ArgsModel, s: Map<Seq<char>, ConfigSource>, c: BenchConfig)
    requires
        config_run(m, s, c, 0).2 is None,
    ensures
        ({
            let out = config_run(m, s, c, 0).0;
            &&& c.population matches Some(v) ==> out.evolution_population == v
            &&& c.population is None ==> out.evolution_population == m.evolution_population
        }),
{
    reveal(config_slot);
    lemma_field_or_unchanged(m, s, c, 31, |a: ArgsModel| a.evolution_population, match c.population {
        Some(v) => Some(v as nat),
        None => None,
    });
}

/// The `generations` field sets the setting of the same name.
proof fn lemma_config_generations(m: ArgsModel, s: Map<Seq<char>, ConfigSource>, c: BenchConfig)
    requires
        config_run(m, s, c, 0).2 is None,
    ensures
        ({
            let out = config_run(m, s, c, 0).0;
            &&& c.generations matches Some(v) ==> out.evolution_generations == v
            &&& c.generations is None ==> out.evolution_generations == m.evolution_generations
        }),
{
    reveal(config_slot);
    lemma_field_or_unchanged(m, s, c, 32, |a: ArgsModel| a.evolution_generations, match c.generations {
        Some(v) => Some(v as nat),
        None => None,
    });
}

/// The `elite_count` field sets the setting of the same name.
proof fn lemma_config_elite_count(m: ArgsModel, s: Map<Seq<char>, ConfigSource>, c: BenchConfig)
    requires
        config_run(m, s, c, 0).2 is None,
    ensures
        ({
            let out = config_run(m, s, c, 0).0;
            &&& c.elite_count matches Some(v) ==> out.evolution_elite_count == v
            &&& c.elite_count is None ==> out.evolution_elite_count == m.evolution_elite_count
        }),
{
    reveal(config_slot);
    lemma_field_or_unchanged(m, s, c, 33, |a: ArgsModel| a.evolution_elite_count, match c.elite_count {
        Some(v) => Some(v as nat),
        None => None,
    });
}

/// The `threads` field sets the setting of the same name.
proof fn lemma_config_threads(m: ArgsModel, s: Map<Seq<char>, ConfigSource>, c: BenchConfig)
    requires
        config_run(m, s, c, 0).2 is None,
    ensures
        ({
            let out = config_run(m, s, c, 0).0;
            &&& c.threads matches Some(v) ==> out.evolution_threads == v
            &&& c.threads is None ==> out.evolution_threads == m.evolution_threads
        }),
{
    reveal(config_slot);
    lemma_field_or_unchanged(m, s, c, 36, |a: ArgsModel| a.evolution_threads, match c.threads {
        Some(v) => Some(v as nat),
        None => None,
    });
}

/// The `data` field sets the setting of the same name.
proof fn lemma_config_data(m: ArgsModel, s: Map<Seq<char>, ConfigSource>, c: BenchConfig)
    requires
        config_run(m, s, c, 0).2 is None,
    ensures
        ({
            let out = config_run(m, s, c, 0).0;
            &&& c.data matches Some(v) ==> out.data_path == Some(v@)
            &&& c.data is None ==> out.data_path == m.data_path
        }),
{
    reveal(config_slot);
    lemma_field_or_unchanged(m, s, c, 1, |a: ArgsModel| a.data_path, match c.data {
        Some(v) => Some(Some(v@)),
        None => None,
    });
}

/// The `eval_data` field sets the setting of the same name.
proof fn lemma_config_eval_data(m: ArgsModel, s: Map<Seq<char>, ConfigSource>, c: BenchConfig)
    requires
        config_run(m, s, c, 0).2 is None,
    ensures
        ({
            let out = config_run(m, s, c, 0).0;
            &&& c.eval_data matches Some(v) ==> out.eval_data_path == Some(v@)
            &&& c.eval_data is None ==> out.eval_data_path == m.eval_data_path
        }),
{
    reveal(config_slot);
    lemma_field_or_unchanged(m, s, c, 2, |a: ArgsModel| a.eval_data_path, match c.eval_data {
        Some(v) => Some(Some(v@)),
        None => None,
    });
}

/// The `out` field sets the setting of the same name.
proof fn lemma_config_out(m: ArgsModel, s: Map<Seq<char>, ConfigSource>, c: BenchConfig)
    requires
        config_run(m, s, c, 0).2 is None,
    ensures
        ({
            let out = config_run(m, s, c, 0).0;
            &&& c.out matches Some(v) ==> out.out_path == Some(v@)
            &&& c.out is None ==> out.out_path == m.out_path
        }),
{
    reveal(config_slot);
    lemma_field_or_unchanged(m, s, c, 3, |a: ArgsModel| a.out_path, match c.out {
        Some(v) => Some(Some(v@)),
        None => None,
    });
}

/// The `model` field sets the setting of the same name.
proof fn lemma_config_model(m: ArgsModel, s: Map<Seq<char>, ConfigSource>, c: BenchConfig)
    requires
        config_run(m, s, c, 0).2 is None,
    ensures
        ({
            let out = config_run(m, s, c, 0).0;
            &&& c.model matches Some(v) ==> out.model_path == Some(v@)
            &&& c.model is None ==> out.model_path == m.model_path
        }),
{
    reveal(config_slot);
    lemma_field_or_unchanged(m, s, c, 4, |a: ArgsModel| a.model_path, match c.model {
        Some(v) => Some(Some(v@)),
        None => None,
    });
}

/// The `image` field sets the setting of the same name.
proof fn lemma_config_image(m: ArgsModel, s: Map<Seq<char>, ConfigSource>, c: BenchConfig)
    requires
        config_run(m, s, c, 0).2 is None,
    ensures
        ({
            let out = config_run(m, s, c, 0).0;
            &&& c.image matches Some(v) ==> out.image_path == Some(v@)
            &&& c.image is None ==> out.image_path == m.image_path
        }),
{
    reveal(config_slot);
    lemma_field_or_unchanged(m, s, c, 5, |a: ArgsModel| a.image_path, match c.image {
        Some(v) => Some(Some(v@)),
        None => None,
    });
}

/// The `debug_out` field sets the setting of the same name.
proof fn lemma_config_debug_out(m: ArgsModel, s: Map<Seq<char>, ConfigSource>, c: BenchConfig)
    requires
        config_run(m, s, c, 0).2 is None,
    ensures
        ({
            let out = config_run(m, s, c, 0).0;
            &&& c.debug_out matches Some(v) ==> out.debug_out_path == Some(v@)
            &&& c.debug_out is None ==> out.debug_out_path == m.debug_out_path
        }),
{
    reveal(config_slot);
    lemma_field_or_unchanged(m, s, c, 26, |a: ArgsModel| a.debug_out_path, match c.debug_out {
        Some(v) => Some(Some(v@)),
        None => None,
    });
}

/// The `debug_train_data` field sets the setting of the same name.
proof fn lemma_config_debug_train_data(m: ArgsModel, s: Map<Seq<char>, ConfigSource>, c: BenchConfig)
    requires
        config_run(m, s, c, 0).2 is None,
    ensures
        ({
            let out = config_run(m, s, c, 0).0;
            &&& c.debug_train_data matches Some(v) ==> out.debug_train_data_path == Some(v@)
            &&& c.debug_train_data is None ==> out.debug_train_data_path == m.debug_train_data_path
        }),
{
    reveal(config_slot);
    lemma_field_or_unchanged(m, s, c, 27, |a: ArgsModel| a.debug_train_data_path, match c.debug_train_data {
        Some(v) => Some(Some(v@)),
        None => None,
    });
}

/// The image size sets the width, unless the width field sets it.
proof fn lemma_config_image_width(m: ArgsModel, s: Map<Seq<char>, ConfigSource>, c: BenchConfig)
    requires
        config_run(m, s, c, 0).2 is None,
    ensures
        ({
            let out = config_run(m, s, c, 0).0;
            &&& c.image_width matches Some(v) ==> out.image_width == v
            &&& c.image_width is None ==> (c.image_size matches Some(v) ==> out.image_width == v)
            &&& c.image_width is None && c.image_size is None ==> out.image_width == m.image_width
        }),
{
    reveal(config_slot);
    let proj = |a: ArgsModel| a.image_width;
    match c.image_width {
        Some(v) => lemma_config_field_decides(m, s, c, 11, proj, v as nat),
        None => match c.image_size {
            Some(v) => lemma_config_field_decides(m, s, c, 10, proj, v as nat),
            None => {
                assert(later_fields_leave(c, 0, proj));
                lemma_config_run_keeps(m, s, c, 0, proj);
            },
        },
    }
}

/// The image size sets the height, unless the height field sets it.
proof fn lemma_config_image_height(m: ArgsModel, s: Map<Seq<char>, ConfigSource>, c: BenchConfig)
    requires
        config_run(m, s, c, 0).2 is None,
    ensures
        ({
            let out = config_run(m, s, c, 0).0;
            &&& c.image_height matches Some(v) ==> out.image_height == v
            &&& c.image_height is None ==> (c.image_size matches Some(v) ==> out.image_height == v)
            &&& c.image_height is None && c.image_size is None ==> out.image_height == m.image_height
        }),
{
    reveal(config_slot);
    let proj = |a: ArgsModel| a.image_height;
    match c.image_height {
        Some(v) => lemma_config_field_decides(m, s, c, 12, proj, v as nat),
        None => match c.image_size {
            Some(v) => lemma_config_field_decides(m, s, c, 10, proj, v as nat),
            None => {
                assert(later_fields_leave(c, 0, proj));
                lemma_config_run_keeps(m, s, c, 0, proj);
            },
        },
    }
}

/// A configuration file that is accepted sets each of these settings to the
/// value of the field of the same name, and leaves it as it was when the
/// file does not hold that field; the image size sets both the width and
/// the height, unless the width or height field sets that one.
pub proof fn lemma_configuration_fields_set_their_settings(
    m: ArgsModel,
    s: Map<Seq<char>, ConfigSource>,
    c: BenchConfig,
)
    requires
        config_run(m, s, c, 0).2 is None,
    ensures
        ({
            let out = config_run(m, s, c, 0).0;
            &&& c.epochs matches Some(v) ==> out.epochs == v
            &&& c.epochs is None ==> out.epochs == m.epochs
            &&& c.intervals matches Some(v) ==> out.intervals == v
            &&& c.intervals is None ==> out.intervals == m.intervals
            &&& c.seed matches Some(v) ==> out.seed == v
            &&& c.seed is None ==> out.seed == m.seed
            &&& c.samples_per_class matches Some(v) ==> out.samples_per_class == v
            &&& c.samples_per_class is None ==> out.samples_per_class == m.samples_per_class
            &&& c.top_k matches Some(v) ==> out.top_k == v
            &&& c.top_k is None ==> out.top_k == m.top_k
            &&& c.matrix_top matches Some(v) ==> out.matrix_top == v
            &&& c.matrix_top is None ==> out.matrix_top == m.matrix_top
            &&& c.debug_limit matches Some(v) ==> out.debug_limit == v
            &&& c.debug_limit is None ==> out.debug_limit == m.debug_limit
            &&& c.debug_neighbors matches Some(v) ==> out.debug_neighbors == v
            &&& c.debug_neighbors is None ==> out.debug_neighbors == m.debug_neighbors
            &&& c.population matches Some(v) ==> out.evolution_population == v
            &&& c.population is None ==> out.evolution_population == m.evolution_population
            &&& c.generations matches Some(v) ==> out.evolution_generations == v
            &&& c.generations is None ==> out.evolution_generations == m.evolution_generations
            &&& c.elite_count matches Some(v) ==> out.evolution_elite_count == v
            &&& c.elite_count is None ==> out.evolution_elite_count == m.evolution_elite_count
            &&& c.threads matches Some(v) ==> out.evolution_threads == v
            &&& c.threads is None ==> out.evolution_threads == m.evolution_threads
            &&& c.data matches Some(v) ==> out.data_path == Some(v@)
            &&& c.data is None ==> out.data_path == m.data_path
            &&& c.eval_data matches Some(v) ==> out.eval_data_path == Some(v@)
            &&& c.eval_data is None ==> out.eval_data_path == m.eval_data_path
            &&& c.out matches Some(v) ==> out.out_path == Some(v@)
            &&& c.out is None ==> out.out_path == m.out_path
            &&& c.model matches Some(v) ==> out.model_path == Some(v@)
            &&& c.model is None ==> out.model_path == m.model_path
            &&& c.image matches Some(v) ==> out.image_path == Some(v@)
            &&& c.image is None ==> out.image_path == m.image_path
            &&& c.debug_out matches Some(v) ==> out.debug_out_path == Some(v@)
            &&& c.debug_out is None ==> out.debug_out_path == m.debug_out_path
            &&& c.debug_train_data matches Some(v) ==> out.debug_train_data_path == Some(v@)
            &&& c.debug_train_data is None ==> out.debug_train_data_path == m.debug_train_data_path
            &&& c.image_width matches Some(v) ==> out.image_width == v
            &&& c.image_height matches Some(v) ==> out.image_height == v
            &&& c.image_width is None ==> (c.image_size matches Some(v) ==> out.image_width == v)
            &&& c.image_height is None ==> (c.image_size matches Some(v) ==> out.image_height == v)
            &&& c.image_width is None && c.image_size is None ==> out.image_width == m.image_width
            &&& c.image_height is None && c.image_size is None ==> out.image_height == m.image_height
        }),
{
    lemma_config_epochs(m, s, c);
    lemma_config_intervals(m, s, c);
    lemma_config_seed(m, s, c);
    lemma_config_samples_per_class(m, s, c);
    lemma_config_top_k(m, s, c);
    lemma_config_matrix_top(m, s, c);
    lemma_config_debug_limit(m, s, c);
    lemma_config_debug_neighbors(m, s, c);
    lemma_config_population(m, s, c);
    lemma_config_generations(m, s, c);
    lemma_config_elite_count(m, s, c);
    lemma_config_threads(m, s, c);
    lemma_config_data(m, s, c);
    lemma_config_eval_data(m, s, c);
    lemma_config_out(m, s, c);
    lemma_config_model(m, s, c);
    lemma_config_image(m, s, c);
    lemma_config_debug_out(m, s, c);
    lemma_config_debug_train_data(m, s, c);
    lemma_config_image_width(m, s, c);
    lemma_config_image_height(m, s, c);
}

/// A list of size choices is never empty and, when the fallback is
/// positive, holds positive values without repeats.
pub proof fn lemma_positive_choices(values: Seq<u64>, fallback: u64)
    requires
        fallback > 0,
    ensures
        positive_choices(values, fallback).len() > 0,
        forall|i: int|
            0 <= i < positive_choices(values, fallback).len() ==> #[trigger] positive_choices(
                values,
                fallback,
            )[i] > 0,
        forall|i: int, j: int|
            0 <= i < j < positive_choices(values, fallback).len() ==> positive_choices(
                values,
                fallback,
            )[i] != positive_choices(values, fallback)[j],
{
    let given = if values.len() == 0 {
        seq![fallback]
    } else {
        values
    };
    let kept = distinct_in_order(positives(given));
    lemma_distinct_in_order(positives(given));
    assert forall|i: int| 0 <= i < kept.len() implies #[trigger] kept[i] > 0 by {
        assert(kept.contains(kept[i]));
        assert(positives(given).contains(kept[i]));
        let k = choose|k: int| 0 <= k < positives(given).len() && positives(given)[k] == kept[i];
        given.lemma_filter_pred(|x: u64| x > 0, k);
    }
}

/// The command is the first argument when it is not a flag; with no flags
/// and no search artifact named,
/// the settings are the command's defaults changed by the configuration,
/// which is recorded as their source.
pub proof fn lemma_configuration_overrides_defaults(cmd: Seq<char>, c: BenchConfig)
    requires
        !has_prefix(cmd, "--"@),
        config_run(
            default_model(cmd),
            default_source_map().insert("command"@, ConfigSource::Cli),
            c,
            0,
        ).2 is None,
    ensures
        ({
            let after = config_run(
                default_model(cmd),
                default_source_map().insert("command"@, ConfigSource::Cli),
                c,
                0,
            );
            resolve_run(seq![cmd], Some(c), None) == Ok::<
                (ArgsModel, Map<Seq<char>, ConfigSource>),
                ArgFault,
            >((after.0, after.1))
        }),
{
}

/// A flag on the command line overrides what the configuration set: with no
/// search artifact named and
/// one flag after the command, the settings are the configuration's with
/// the flag's setting given the flag's value and recorded as coming from
/// the command line.
pub proof fn lemma_command_line_overrides_configuration(
    cmd: Seq<char>,
    flag: Seq<char>,
    text: Seq<char>,
    c: BenchConfig,
    kind: SettingKind,
    v: SettingValue,
)
    requires
        !has_prefix(cmd, "--"@),
        flag_setting(flag) == Some(kind),
        inline_config_path(flag) is None,
        !is_config_flag(flag),
        read_setting(kind, text) == Ok::<SettingValue, ArgFault>(v),
        config_run(
            default_model(cmd),
            default_source_map().insert("command"@, ConfigSource::Cli),
            c,
            0,
        ).2 is None,
    ensures
        ({
            let after = config_run(
                default_model(cmd),
                default_source_map().insert("command"@, ConfigSource::Cli),
                c,
                0,
            );
            resolve_run(seq![cmd, flag, text], Some(c), None) == Ok::<
                (ArgsModel, Map<Seq<char>, ConfigSource>),
                ArgFault,
            >((assign(after.0, kind, v), mark(after.1, kind, ConfigSource::Cli)))
        }),
{
    let raw = seq![cmd, flag, text];
    assert(raw[0] == cmd);
    assert(raw[1] == flag);
    assert(raw[2] == text);
    assert(flag_rule(flag) == FlagRule::TakesValue(kind));
    let after = config_run(
        default_model(cmd),
        default_source_map().insert("command"@, ConfigSource::Cli),
        c,
        0,
    );
    let m1 = assign(after.0, kind, v);
    let s1 = mark(after.1, kind, ConfigSource::Cli);
    assert(cli_run(m1, s1, raw, 3) == (m1, s1, None::<ArgFault>));
    assert(cli_run(after.0, after.1, raw, 1) == (m1, s1, None::<ArgFault>));
}

/// A setting holds the value it was last given, whatever it held before.
pub proof fn lemma_assigned_value_reads_back(m: ArgsModel, kind: SettingKind, v: SettingValue)
    requires
        fits(kind, v),
    ensures
        setting_of(assign(m, kind, v), kind) == v,
{
}

/// The value of a decimal digit character.
proof fn lemma_decimal_char_value(d: nat)
    requires
        d < 10,
    ensures
        digit_value(decimal_char(d), 10) == Some(d),
        decimal_char(d) != '+' && decimal_char(d) != '-',
{
    assert(decimal_char(d) as int == d + 48);
}

/// Reading one more character continues from the value read so far.
proof fn lemma_scan_push(s: Seq<char>, c: char, radix: nat, max: nat, acc: nat)
    ensures
        scan_digits(s.push(c), radix, max, acc) == match scan_digits(s, radix, max, acc) {
            Ok(a) => scan_digits(seq![c], radix, max, a),
            Err(e) => Err(e),
        },
    decreases s.len(),
{
    if s.len() == 0 {
        assert(s.push(c) =~= seq![c]);
    } else {
        assert(s.push(c)[0] == s[0]);
        assert(s.push(c).drop_first() =~= s.drop_first().push(c));
        if let Some(v) = digit_value(s[0], radix) {
            if acc * radix + v <= max {
                lemma_scan_push(s.drop_first(), c, radix, max, acc * radix + v);
            }
        }
    }
}

/// The first character of a decimal text is a digit.
proof fn lemma_decimal_text_starts_with_digit(n: nat)
    ensures
        decimal_text(n).len() > 0,
        exists|d: nat| d < 10 && decimal_text(n)[0] == decimal_char(d),
    decreases n,
{
    if n < 10 {
        assert(decimal_text(n)[0] == decimal_char(n));
    } else {
        lemma_decimal_text_starts_with_digit(n / 10);
        let d = choose|d: nat| d < 10 && decimal_text(n / 10)[0] == decimal_char(d);
        assert(decimal_text(n)[0] == decimal_text(n / 10)[0]);
    }
}

proof fn lemma_scan_decimal(n: nat, max: nat)
    requires
        n <= max,
    ensures
        scan_digits(decimal_text(n), 10, max, 0) == Ok::<nat, NumberFault>(n),
    decreases n,
{
    if n < 10 {
        lemma_decimal_char_value(n);
        assert(decimal_text(n) == seq![decimal_char(n)]);
        assert(seq![decimal_char(n)].drop_first() =~= Seq::<char>::empty());
        assert(scan_digits(Seq::<char>::empty(), 10, max, n) == Ok::<nat, NumberFault>(n));
    } else {
        lemma_scan_decimal(n / 10, max);
        let d = (n % 10) as nat;
        lemma_decimal_char_value(d);
        lemma_scan_push(decimal_text(n / 10), decimal_char(d), 10, max, 0);
        assert(seq![decimal_char(d)].drop_first() =~= Seq::<char>::empty());
        assert((n / 10) * 10 + d == n);
        assert(scan_digits(Seq::<char>::empty(), 10, max, n) == Ok::<nat, NumberFault>(n));
        assert(scan_digits(seq![decimal_char(d)], 10, max, n / 10) == Ok::<nat, NumberFault>(n));
    }
}

/// A number written in decimal, as a report writes it, reads back as the
/// same number wherever it fits.
pub proof fn lemma_decimal_reads_back(n: nat, max: nat)
    requires
        n <= max,
    ensures
        parse_unsigned(decimal_text(n), 10, max) == Ok::<nat, NumberFault>(n),
{
    lemma_scan_decimal(n, max);
    lemma_decimal_text_starts_with_digit(n);
    let d = choose|d: nat| d < 10 && decimal_text(n)[0] == decimal_char(d);
    lemma_decimal_char_value(d);
}

/// No value occurs twice.
pub open spec fn no_repeats(s: Seq<usize>) -> bool {
    forall|i: int, j: int| 0 <= i < j < s.len() ==> s[i] != s[j]
}

proof fn lemma_append_unique(target: Seq<usize>, source: Seq<usize>)
    requires
        no_repeats(target),
    ensures
        no_repeats(append_unique(target, source)),
        forall|x: usize|
            append_unique(target, source).contains(x) ==> target.contains(x) || source.contains(
                x,
            ),
    decreases source.len(),
{
    if source.len() > 0 {
        let rest = source.drop_last();
        lemma_append_unique(target, rest);
        let before = append_unique(target, rest);
        let out = append_unique(target, source);
        assert forall|x: usize| out.contains(x) implies target.contains(x) || source.contains(x) by {
            let k = choose|k: int| 0 <= k < out.len() && out[k] == x;
            if k < before.len() {
                assert(before[k] == x);
                assert(before.contains(x));
                if rest.contains(x) {
                    let w = choose|w: int| 0 <= w < rest.len() && rest[w] == x;
                    assert(source[w] == x);
                }
            } else {
                assert(source[source.len() - 1] == x);
            }
        }
        assert forall|i: int, j: int| 0 <= i < j < out.len() implies out[i] != out[j] by {
            if j == before.len() {
                assert(out[i] == before[i]);
                assert(!before.contains(source.last()));
            }
        }
    }
}

proof fn lemma_first_n(s: Seq<usize>, n: int)
    requires
        n >= 0,
    ensures
        first_n(s, n).len() <= n,
        no_repeats(s) ==> no_repeats(first_n(s, n)),
        forall|x: usize| first_n(s, n).contains(x) ==> s.contains(x),
{
    assert forall|x: usize| first_n(s, n).contains(x) implies s.contains(x) by {
        let k = choose|k: int| 0 <= k < first_n(s, n).len() && first_n(s, n)[k] == x;
        assert(s[k] == x);
    }
}

proof fn lemma_positions_where(flags: Seq<bool>, want: bool)
    requires
        flags.len() <= usize::MAX,
    ensures
        forall|i: int, j: int|
            0 <= i < j < positions_where(flags, want).len() ==> positions_where(flags, want)[i]
                < positions_where(flags, want)[j],
        forall|i: int|
            0 <= i < positions_where(flags, want).len() ==> {
                let p = #[trigger] positions_where(flags, want)[i];
                p < flags.len() && flags[p as int] == want
            },
    decreases flags.len(),
{
    if flags.len() > 0 {
        let rest_flags = flags.drop_last();
        lemma_positions_where(rest_flags, want);
        let rest = positions_where(rest_flags, want);
        let out = positions_where(flags, want);
        if flags.last() == want {
            assert(out == rest.push((flags.len() - 1) as usize));
        } else {
            assert(out == rest);
        }
        assert forall|i: int| 0 <= i < out.len() implies {
            let p = #[trigger] out[i];
            p < flags.len() && flags[p as int] == want
        } by {
            if i < rest.len() {
                let q = rest[i];
                assert(q < rest_flags.len() && rest_flags[q as int] == want);
                assert(out[i] == q);
                assert(rest_flags[q as int] == flags[q as int]);
            } else {
                assert(flags.last() == want);
                assert(out[i] == flags.len() - 1);
            }
        }
        assert forall|i: int, j: int| 0 <= i < j < out.len() implies out[i] < out[j] by {
            let q = rest[i];
            assert(q < rest_flags.len());
            assert(out[i] == q);
            if j < rest.len() {
                assert(out[j] == rest[j]);
            } else {
                assert(out[j] == flags.len() - 1);
            }
        }
    }
}

/// A debug report shows at most `limit` samples and none twice; all of them
/// exist, the correct selection shows only correct samples, and the
/// misclassified selection only samples named by the margin orders or wrong.
pub proof fn lemma_debug_selection_bounded(
    correct: Seq<bool>,
    samples: DebugSamples,
    limit: usize,
    by_confidence: Seq<usize>,
    by_ambiguity: Seq<usize>,
)
    requires
        correct.len() <= usize::MAX,
    ensures
        ({
            let shown = debug_selection(correct, samples, limit as int, by_confidence, by_ambiguity);
            &&& shown.len() <= limit
            &&& no_repeats(shown)
            &&& samples != DebugSamples::Misclassified ==> forall|i: int|
                0 <= i < shown.len() ==> #[trigger] shown[i] < correct.len()
            &&& samples == DebugSamples::Correct ==> forall|i: int|
                0 <= i < shown.len() ==> correct[#[trigger] shown[i] as int]
            &&& samples == DebugSamples::Misclassified ==> forall|x: usize|
                #[trigger] shown.contains(x) ==> by_confidence.contains(x) || by_ambiguity.contains(
                    x,
                ) || (x < correct.len() && !correct[x as int])
        }),
{
    let shown = debug_selection(correct, samples, limit as int, by_confidence, by_ambiguity);
    if limit == 0 {
        return;
    }
    match samples {
        DebugSamples::All => {},
        DebugSamples::Correct => {
            let ps = positions_where(correct, true);
            lemma_positions_where(correct, true);
            lemma_first_n(ps, limit as int);
            assert forall|i: int| 0 <= i < shown.len() implies correct[#[trigger] shown[i] as int]
                && shown[i] < correct.len() by {
                assert(shown[i] == ps[i]);
            }
        },
        DebugSamples::Misclassified => {
            let wrong = positions_where(correct, false);
            lemma_positions_where(correct, false);
            let quota = if limit / 2 < 1 {
                1
            } else {
                limit / 2
            };
            let high = first_n(by_confidence, quota as int);
            lemma_first_n(by_confidence, quota as int);
            let first = append_unique(Seq::empty(), high);
            lemma_append_unique(Seq::empty(), high);
            let remaining = if limit > first.len() {
                limit - first.len()
            } else {
                0
            };
            let ambiguous = first_n(by_ambiguity, remaining);
            lemma_first_n(by_ambiguity, remaining);
            let second = append_unique(first, ambiguous);
            lemma_append_unique(first, ambiguous);
            let third = append_unique(second, wrong);
            lemma_append_unique(second, wrong);
            lemma_first_n(third, limit as int);
            assert forall|x: usize| #[trigger] shown.contains(x) implies by_confidence.contains(x)
                || by_ambiguity.contains(x) || (x < correct.len() && !correct[x as int]) by {
                assert(third.contains(x));
                if wrong.contains(x) {
                    let k = choose|k: int| 0 <= k < wrong.len() && wrong[k] == x;
                    assert(wrong[k] < correct.len() && correct[wrong[k] as int] == false);
                }
                if first.contains(x) {
                    assert(high.contains(x));
                }
            }
        },
    }
}

} // verus!
