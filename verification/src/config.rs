//! Settings read from a configuration file: the fields a file may set, in
//! the order they are applied, and the report of every setting's value and
//! source.
use vstd::prelude::*;

use crate::cli::{
    default_source_map, default_sources, set_source, views_of, debug_samples_text, list_string, matrix_model_name, matrix_model_text, option_string,
    output_format_name, output_format_text, report_field_names, report_fields, ArgError, ArgFault,
    ConfigReport, ConfigReportEntry, ConfigSource, MatrixModel, SourceMap,
};
use crate::metrics::join_with;
use crate::cli::{inline_config_path, is_config_flag};
use crate::settings::{
    flag_rule, FlagRule, apply_cli_flags, cli_run, default_args, default_model, opt_text, assign, assign_setting, correction_mode_name, correction_text, fits, lemma_read_fits, mark,
    mark_source, nats_of, nats_u32, nats_usize, read_setting, read_setting_value, texts_of, Args,
    ArgsModel, CorrectionChoice, Setting, SettingKind, SettingValue,
};
use crate::text::{decimal_text, has_prefix, push_decimal, starts_with, str_eq, string_of};

verus! {

/// A configuration field that lists values: text with comma-separated
/// values, a list of items, or anything else (kept as written in the file).
pub enum ConfigList {
    Text(String),
    Items(Vec<ConfigItem>),
    Other(String),
}

/// One item of a listed configuration field: text, a number as written in
/// the file, or anything else as written in the file.
pub enum ConfigItem {
    Text(String),
    Number(String),
    Other(String),
}

pub enum ItemView {
    Text(Seq<char>),
    Number(Seq<char>),
    Other(Seq<char>),
}

pub enum ListView {
    Text(Seq<char>),
    Items(Seq<ItemView>),
    Other(Seq<char>),
}

impl View for ConfigItem {
    type V = ItemView;

    open spec fn view(&self) -> ItemView {
        match self {
            ConfigItem::Text(t) => ItemView::Text(t@),
            ConfigItem::Number(t) => ItemView::Number(t@),
            ConfigItem::Other(t) => ItemView::Other(t@),
        }
    }
}

pub open spec fn items_view(items: Seq<ConfigItem>) -> Seq<ItemView> {
    items.map_values(|i: ConfigItem| i@)
}

impl View for ConfigList {
    type V = ListView;

    open spec fn view(&self) -> ListView {
        match self {
            ConfigList::Text(t) => ListView::Text(t@),
            ConfigList::Items(items) => ListView::Items(items_view(items@)),
            ConfigList::Other(t) => ListView::Other(t@),
        }
    }
}

/// The texts of the items, in order; the first item that is neither text
/// nor a number is refused.
pub open spec fn item_texts(field: Seq<char>, items: Seq<ItemView>) -> Result<Seq<Seq<char>>, ArgFault>
    decreases items.len(),
{
    if items.len() == 0 {
        Ok(Seq::empty())
    } else {
        match item_texts(field, items.drop_last()) {
            Err(f) => Err(f),
            Ok(texts) => match items.last() {
                ItemView::Text(t) => Ok(texts.push(t)),
                ItemView::Number(t) => Ok(texts.push(t)),
                ItemView::Other(t) => Err(ArgFault::ConfigItemUnsupported(field, t)),
            },
        }
    }
}

/// A listed field as one comma-separated text.
pub open spec fn list_csv(field: Seq<char>, list: ListView) -> Result<Seq<char>, ArgFault> {
    match list {
        ListView::Text(t) => Ok(t),
        ListView::Items(items) => match item_texts(field, items) {
            Ok(texts) => Ok(join_with(texts, ","@)),
            Err(f) => Err(f),
        },
        ListView::Other(t) => Err(ArgFault::ConfigNotList(field, t)),
    }
}

proof fn lemma_item_refusal_stays(field: Seq<char>, items: Seq<ItemView>, i: int)
    requires
        0 <= i < items.len(),
        item_texts(field, items.take(i + 1)) is Err,
    ensures
        item_texts(field, items) == item_texts(field, items.take(i + 1)),
    decreases items.len() - i,
{
    if i + 1 == items.len() {
        assert(items.take(i + 1) =~= items);
    } else {
        assert(items.take(i + 2).drop_last() =~= items.take(i + 1));
        lemma_item_refusal_stays(field, items, i + 1);
    }
}

/// A listed configuration field as one comma-separated text.
pub fn config_value_as_csv(value: &ConfigList, field: &str) -> (r: Result<String, ArgError>)
    ensures
        match list_csv(field@, value@) {
            Ok(t) => r is Ok && r->Ok_0@ == t,
            Err(f) => r is Err && r->Err_0@ == f,
        },
{
    match value {
        ConfigList::Text(t) => Ok(t.clone()),
        ConfigList::Other(t) => Err(ArgError::ConfigNotList(string_of(field), t.clone())),
        ConfigList::Items(items) => {
            let ghost views = items_view(items@);
            let mut texts: Vec<String> = Vec::new();
            let mut i: usize = 0;
            assert(texts_of(texts@) =~= Seq::<Seq<char>>::empty());
            assert(views.take(0) =~= Seq::<ItemView>::empty());
            while i < items.len()
                invariant
                    i <= items@.len(),
                    views == items_view(items@),
                    views.len() == items@.len(),
                    value@ == ListView::Items(views),
                    item_texts(field@, views.take(i as int)) == Ok::<Seq<Seq<char>>, ArgFault>(
                        texts_of(texts@),
                    ),
                decreases items@.len() - i,
            {
                assert(views.take(i + 1).drop_last() =~= views.take(i as int));
                assert(views.take(i + 1).last() == items@[i as int]@);
                let ghost before = texts@;
                match &items[i] {
                    ConfigItem::Text(t) => {
                        texts.push(t.clone());
                        assert(texts_of(texts@) =~= texts_of(before).push(t@));
                    },
                    ConfigItem::Number(t) => {
                        texts.push(t.clone());
                        assert(texts_of(texts@) =~= texts_of(before).push(t@));
                    },
                    ConfigItem::Other(t) => {
                        assert(views[i as int] == ItemView::Other(t@));
                        assert(item_texts(field@, views.take(i + 1)) == Err::<Seq<Seq<char>>, ArgFault>(
                            ArgFault::ConfigItemUnsupported(field@, t@),
                        ));
                        proof {
                            lemma_item_refusal_stays(field@, views, i as int);
                        }
                        assert(value@ == ListView::Items(views));
                        assert(item_texts(field@, views) == Err::<Seq<Seq<char>>, ArgFault>(
                            ArgFault::ConfigItemUnsupported(field@, t@),
                        ));
                        assert(list_csv(field@, value@) == Err::<Seq<char>, ArgFault>(
                            ArgFault::ConfigItemUnsupported(field@, t@),
                        ));
                        return Err(ArgError::ConfigItemUnsupported(string_of(field), t.clone()));
                    },
                }
                i = i + 1;
            }
            assert(views.take(i as int) =~= views);
            Ok(join_strings(&texts, ","))
        },
    }
}

/// The strings joined with `sep` between neighbours.
pub fn join_strings(values: &Vec<String>, sep: &str) -> (r: String)
    ensures
        r@ == join_with(texts_of(values@), sep@),
{
    let mut out = String::new();
    let mut i: usize = 0;
    while i < values.len()
        invariant
            i <= values@.len(),
            out@ == join_with(texts_of(values@.take(i as int)), sep@),
        decreases values@.len() - i,
    {
        if i > 0 {
            out.append(sep);
        }
        out.append(values[i].as_str());
        proof {
            let parts = texts_of(values@.take(i + 1));
            assert(parts.drop_last() =~= texts_of(values@.take(i as int)));
            assert(out@ =~= join_with(parts, sep@));
        }
        i = i + 1;
    }
    assert(values@.take(i as int) =~= values@);
    out
}

/// The settings a configuration file may hold; each is applied when present.
pub struct BenchConfig {
    pub command: Option<String>,
    pub format: Option<String>,
    pub data: Option<String>,
    pub eval_data: Option<String>,
    pub out: Option<String>,
    pub model: Option<String>,
    pub image: Option<String>,
    pub epochs: Option<usize>,
    pub intervals: Option<usize>,
    pub correction_mode: Option<String>,
    pub seed: Option<u64>,
    pub image_size: Option<u32>,
    pub image_width: Option<u32>,
    pub image_height: Option<u32>,
    pub image_features: Option<String>,
    pub image_resize: Option<String>,
    pub samples_per_class: Option<usize>,
    pub top_k: Option<usize>,
    pub target_mse: Option<String>,
    pub matrix_models: Option<ConfigList>,
    pub matrix_features: Option<ConfigList>,
    pub matrix_image_sizes: Option<ConfigList>,
    pub matrix_intervals: Option<ConfigList>,
    pub matrix_seeds: Option<ConfigList>,
    pub matrix_resize_modes: Option<ConfigList>,
    pub matrix_correction_modes: Option<ConfigList>,
    pub matrix_top: Option<usize>,
    pub debug_out: Option<String>,
    pub debug_train_data: Option<String>,
    pub debug_limit: Option<usize>,
    pub debug_samples: Option<String>,
    pub debug_neighbors: Option<usize>,
    pub population: Option<usize>,
    pub generations: Option<usize>,
    pub elite_count: Option<usize>,
    pub mutation_rate: Option<String>,
    pub validation_ratio: Option<String>,
    pub threads: Option<usize>,
    pub evolve_features: Option<ConfigList>,
    pub evolve_image_sizes: Option<ConfigList>,
    pub evolve_resize_modes: Option<ConfigList>,
    pub evolve_top_k: Option<ConfigList>,
    pub memory_penalty_per_mb: Option<String>,
    pub inference_penalty_per_ms: Option<String>,
}

impl Default for BenchConfig {
    /// A configuration that sets nothing.
    fn default() -> (r: Self)
        ensures
            r.command is None,
            forall|j: int| #[trigger] config_slot(r, j) is None,
    {
        let r = BenchConfig {
            command: None,
            format: None,
            data: None,
            eval_data: None,
            out: None,
            model: None,
            image: None,
            epochs: None,
            intervals: None,
            correction_mode: None,
            seed: None,
            image_size: None,
            image_width: None,
            image_height: None,
            image_features: None,
            image_resize: None,
            samples_per_class: None,
            top_k: None,
            target_mse: None,
            matrix_models: None,
            matrix_features: None,
            matrix_image_sizes: None,
            matrix_intervals: None,
            matrix_seeds: None,
            matrix_resize_modes: None,
            matrix_correction_modes: None,
            matrix_top: None,
            debug_out: None,
            debug_train_data: None,
            debug_limit: None,
            debug_samples: None,
            debug_neighbors: None,
            population: None,
            generations: None,
            elite_count: None,
            mutation_rate: None,
            validation_ratio: None,
            threads: None,
            evolve_features: None,
            evolve_image_sizes: None,
            evolve_resize_modes: None,
            evolve_top_k: None,
            memory_penalty_per_mb: None,
            inference_penalty_per_ms: None,
        };
        proof {
            reveal(config_slot);
        }
        r
    }
}

/// How a configuration field gives its value: as text, as a number, or as a
/// listed field (with the field's name for refusals).
pub enum ConfigEntry<'a> {
    Text(&'a String),
    Number(u64),
    List(&'static str, &'a ConfigList),
}

pub enum EntryValue {
    Text(Seq<char>),
    Number(nat),
    List(Seq<char>, ListView),
}

impl<'a> View for ConfigEntry<'a> {
    type V = EntryValue;

    open spec fn view(&self) -> EntryValue {
        match self {
            ConfigEntry::Text(t) => EntryValue::Text(t@),
            ConfigEntry::Number(n) => EntryValue::Number(*n as nat),
            ConfigEntry::List(f, l) => EntryValue::List(f@, l@),
        }
    }
}

/// The number of configuration fields that are applied.
pub const CONFIG_FIELD_COUNT: usize = 43;

/// The `j`-th configuration field in the order they are applied, with the
/// setting it names, when the file holds it.
#[verifier::opaque]
pub open spec fn config_slot(c: BenchConfig, j: int) -> Option<(SettingKind, EntryValue)> {
    if j == 0 {
        match c.format {
            Some(v) => Some((SettingKind::Format, EntryValue::Text(v@))),
            None => None,
        }
    } else if j == 1 {
        match c.data {
            Some(v) => Some((SettingKind::DataPath, EntryValue::Text(v@))),
            None => None,
        }
    } else if j == 2 {
        match c.eval_data {
            Some(v) => Some((SettingKind::EvalDataPath, EntryValue::Text(v@))),
            None => None,
        }
    } else if j == 3 {
        match c.out {
            Some(v) => Some((SettingKind::OutPath, EntryValue::Text(v@))),
            None => None,
        }
    } else if j == 4 {
        match c.model {
            Some(v) => Some((SettingKind::ModelPath, EntryValue::Text(v@))),
            None => None,
        }
    } else if j == 5 {
        match c.image {
            Some(v) => Some((SettingKind::ImagePath, EntryValue::Text(v@))),
            None => None,
        }
    } else if j == 6 {
        match c.epochs {
            Some(v) => Some((SettingKind::Epochs, EntryValue::Number(v as nat))),
            None => None,
        }
    } else if j == 7 {
        match c.intervals {
            Some(v) => Some((SettingKind::Intervals, EntryValue::Number(v as nat))),
            None => None,
        }
    } else if j == 8 {
        match c.correction_mode {
            Some(v) => Some((SettingKind::Correction, EntryValue::Text(v@))),
            None => None,
        }
    } else if j == 9 {
        match c.seed {
            Some(v) => Some((SettingKind::Seed, EntryValue::Number(v as nat))),
            None => None,
        }
    } else if j == 10 {
        match c.image_size {
            Some(v) => Some((SettingKind::ImageSize, EntryValue::Number(v as nat))),
            None => None,
        }
    } else if j == 11 {
        match c.image_width {
            Some(v) => Some((SettingKind::ImageWidth, EntryValue::Number(v as nat))),
            None => None,
        }
    } else if j == 12 {
        match c.image_height {
            Some(v) => Some((SettingKind::ImageHeight, EntryValue::Number(v as nat))),
            None => None,
        }
    } else if j == 13 {
        match c.image_features {
            Some(v) => Some((SettingKind::ImageFeatures, EntryValue::Text(v@))),
            None => None,
        }
    } else if j == 14 {
        match c.image_resize {
            Some(v) => Some((SettingKind::ImageResize, EntryValue::Text(v@))),
            None => None,
        }
    } else if j == 15 {
        match c.samples_per_class {
            Some(v) => Some((SettingKind::SamplesPerClass, EntryValue::Number(v as nat))),
            None => None,
        }
    } else if j == 16 {
        match c.top_k {
            Some(v) => Some((SettingKind::TopK, EntryValue::Number(v as nat))),
            None => None,
        }
    } else if j == 17 {
        match c.target_mse {
            Some(v) => Some((SettingKind::TargetMse, EntryValue::Text(v@))),
            None => None,
        }
    } else if j == 18 {
        match c.matrix_models {
            Some(v) => Some((SettingKind::MatrixModels, EntryValue::List("matrix_models"@, v@))),
            None => None,
        }
    } else if j == 19 {
        match c.matrix_features {
            Some(v) => Some((SettingKind::MatrixFeatures, EntryValue::List("matrix_features"@, v@))),
            None => None,
        }
    } else if j == 20 {
        match c.matrix_image_sizes {
            Some(v) => Some((SettingKind::MatrixImageSizes, EntryValue::List("matrix_image_sizes"@, v@))),
            None => None,
        }
    } else if j == 21 {
        match c.matrix_intervals {
            Some(v) => Some((SettingKind::MatrixIntervals, EntryValue::List("matrix_intervals"@, v@))),
            None => None,
        }
    } else if j == 22 {
        match c.matrix_seeds {
            Some(v) => Some((SettingKind::MatrixSeeds, EntryValue::List("matrix_seeds"@, v@))),
            None => None,
        }
    } else if j == 23 {
        match c.matrix_resize_modes {
            Some(v) => Some((SettingKind::MatrixResizeModes, EntryValue::List("matrix_resize_modes"@, v@))),
            None => None,
        }
    } else if j == 24 {
        match c.matrix_correction_modes {
            Some(v) => Some((SettingKind::MatrixCorrectionModes, EntryValue::List("matrix_correction_modes"@, v@))),
            None => None,
        }
    } else if j == 25 {
        match c.matrix_top {
            Some(v) => Some((SettingKind::MatrixTop, EntryValue::Number(v as nat))),
            None => None,
        }
    } else if j == 26 {
        match c.debug_out {
            Some(v) => Some((SettingKind::DebugOut, EntryValue::Text(v@))),
            None => None,
        }
    } else if j == 27 {
        match c.debug_train_data {
            Some(v) => Some((SettingKind::DebugTrainData, EntryValue::Text(v@))),
            None => None,
        }
    } else if j == 28 {
        match c.debug_limit {
            Some(v) => Some((SettingKind::DebugLimit, EntryValue::Number(v as nat))),
            None => None,
        }
    } else if j == 29 {
        match c.debug_samples {
            Some(v) => Some((SettingKind::DebugSamples, EntryValue::Text(v@))),
            None => None,
        }
    } else if j == 30 {
        match c.debug_neighbors {
            Some(v) => Some((SettingKind::DebugNeighbors, EntryValue::Number(v as nat))),
            None => None,
        }
    } else if j == 31 {
        match c.population {
            Some(v) => Some((SettingKind::Population, EntryValue::Number(v as nat))),
            None => None,
        }
    } else if j == 32 {
        match c.generations {
            Some(v) => Some((SettingKind::Generations, EntryValue::Number(v as nat))),
            None => None,
        }
    } else if j == 33 {
        match c.elite_count {
            Some(v) => Some((SettingKind::EliteCount, EntryValue::Number(v as nat))),
            None => None,
        }
    } else if j == 34 {
        match c.mutation_rate {
            Some(v) => Some((SettingKind::MutationRate, EntryValue::Text(v@))),
            None => None,
        }
    } else if j == 35 {
        match c.validation_ratio {
            Some(v) => Some((SettingKind::ValidationRatio, EntryValue::Text(v@))),
            None => None,
        }
    } else if j == 36 {
        match c.threads {
            Some(v) => Some((SettingKind::Threads, EntryValue::Number(v as nat))),
            None => None,
        }
    } else if j == 37 {
        match c.evolve_features {
            Some(v) => Some((SettingKind::EvolveFeatures, EntryValue::List("evolve_features"@, v@))),
            None => None,
        }
    } else if j == 38 {
        match c.evolve_image_sizes {
            Some(v) => Some((SettingKind::EvolveImageSizes, EntryValue::List("evolve_image_sizes"@, v@))),
            None => None,
        }
    } else if j == 39 {
        match c.evolve_resize_modes {
            Some(v) => Some((SettingKind::EvolveResizeModes, EntryValue::List("evolve_resize_modes"@, v@))),
            None => None,
        }
    } else if j == 40 {
        match c.evolve_top_k {
            Some(v) => Some((SettingKind::EvolveTopK, EntryValue::List("evolve_top_k"@, v@))),
            None => None,
        }
    } else if j == 41 {
        match c.memory_penalty_per_mb {
            Some(v) => Some((SettingKind::MemoryPenalty, EntryValue::Text(v@))),
            None => None,
        }
    } else {
        match c.inference_penalty_per_ms {
            Some(v) => Some((SettingKind::InferencePenalty, EntryValue::Text(v@))),
            None => None,
        }
    }
}

fn config_slot_of<'a>(c: &'a BenchConfig, j: usize) -> (r: Option<(SettingKind, ConfigEntry<'a>)>)
    requires
        j < CONFIG_FIELD_COUNT,
    ensures
        match r {
            Some((k, e)) => config_slot(*c, j as int) == Some((k, e@)),
            None => config_slot(*c, j as int) is None,
        },
        r matches Some((k, ConfigEntry::Number(n))) ==> fits(k, SettingValue::Number(n as nat)),
{
    proof {
        reveal(config_slot);
    }
    if j == 0 {
        match &c.format {
            Some(v) => Some((SettingKind::Format, ConfigEntry::Text(v))),
            None => None,
        }
    } else if j == 1 {
        match &c.data {
            Some(v) => Some((SettingKind::DataPath, ConfigEntry::Text(v))),
            None => None,
        }
    } else if j == 2 {
        match &c.eval_data {
            Some(v) => Some((SettingKind::EvalDataPath, ConfigEntry::Text(v))),
            None => None,
        }
    } else if j == 3 {
        match &c.out {
            Some(v) => Some((SettingKind::OutPath, ConfigEntry::Text(v))),
            None => None,
        }
    } else if j == 4 {
        match &c.model {
            Some(v) => Some((SettingKind::ModelPath, ConfigEntry::Text(v))),
            None => None,
        }
    } else if j == 5 {
        match &c.image {
            Some(v) => Some((SettingKind::ImagePath, ConfigEntry::Text(v))),
            None => None,
        }
    } else if j == 6 {
        match c.epochs {
            Some(v) => Some((SettingKind::Epochs, ConfigEntry::Number(v as u64))),
            None => None,
        }
    } else if j == 7 {
        match c.intervals {
            Some(v) => Some((SettingKind::Intervals, ConfigEntry::Number(v as u64))),
            None => None,
        }
    } else if j == 8 {
        match &c.correction_mode {
            Some(v) => Some((SettingKind::Correction, ConfigEntry::Text(v))),
            None => None,
        }
    } else if j == 9 {
        match c.seed {
            Some(v) => Some((SettingKind::Seed, ConfigEntry::Number(v as u64))),
            None => None,
        }
    } else if j == 10 {
        match c.image_size {
            Some(v) => Some((SettingKind::ImageSize, ConfigEntry::Number(v as u64))),
            None => None,
        }
    } else if j == 11 {
        match c.image_width {
            Some(v) => Some((SettingKind::ImageWidth, ConfigEntry::Number(v as u64))),
            None => None,
        }
    } else if j == 12 {
        match c.image_height {
            Some(v) => Some((SettingKind::ImageHeight, ConfigEntry::Number(v as u64))),
            None => None,
        }
    } else if j == 13 {
        match &c.image_features {
            Some(v) => Some((SettingKind::ImageFeatures, ConfigEntry::Text(v))),
            None => None,
        }
    } else if j == 14 {
        match &c.image_resize {
            Some(v) => Some((SettingKind::ImageResize, ConfigEntry::Text(v))),
            None => None,
        }
    } else if j == 15 {
        match c.samples_per_class {
            Some(v) => Some((SettingKind::SamplesPerClass, ConfigEntry::Number(v as u64))),
            None => None,
        }
    } else if j == 16 {
        match c.top_k {
            Some(v) => Some((SettingKind::TopK, ConfigEntry::Number(v as u64))),
            None => None,
        }
    } else if j == 17 {
        match &c.target_mse {
            Some(v) => Some((SettingKind::TargetMse, ConfigEntry::Text(v))),
            None => None,
        }
    } else if j == 18 {
        match &c.matrix_models {
            Some(v) => Some((SettingKind::MatrixModels, ConfigEntry::List("matrix_models", v))),
            None => None,
        }
    } else if j == 19 {
        match &c.matrix_features {
            Some(v) => Some((SettingKind::MatrixFeatures, ConfigEntry::List("matrix_features", v))),
            None => None,
        }
    } else if j == 20 {
        match &c.matrix_image_sizes {
            Some(v) => Some((SettingKind::MatrixImageSizes, ConfigEntry::List("matrix_image_sizes", v))),
            None => None,
        }
    } else if j == 21 {
        match &c.matrix_intervals {
            Some(v) => Some((SettingKind::MatrixIntervals, ConfigEntry::List("matrix_intervals", v))),
            None => None,
        }
    } else if j == 22 {
        match &c.matrix_seeds {
            Some(v) => Some((SettingKind::MatrixSeeds, ConfigEntry::List("matrix_seeds", v))),
            None => None,
        }
    } else if j == 23 {
        match &c.matrix_resize_modes {
            Some(v) => Some((SettingKind::MatrixResizeModes, ConfigEntry::List("matrix_resize_modes", v))),
            None => None,
        }
    } else if j == 24 {
        match &c.matrix_correction_modes {
            Some(v) => Some((SettingKind::MatrixCorrectionModes, ConfigEntry::List("matrix_correction_modes", v))),
            None => None,
        }
    } else if j == 25 {
        match c.matrix_top {
            Some(v) => Some((SettingKind::MatrixTop, ConfigEntry::Number(v as u64))),
            None => None,
        }
    } else if j == 26 {
        match &c.debug_out {
            Some(v) => Some((SettingKind::DebugOut, ConfigEntry::Text(v))),
            None => None,
        }
    } else if j == 27 {
        match &c.debug_train_data {
            Some(v) => Some((SettingKind::DebugTrainData, ConfigEntry::Text(v))),
            None => None,
        }
    } else if j == 28 {
        match c.debug_limit {
            Some(v) => Some((SettingKind::DebugLimit, ConfigEntry::Number(v as u64))),
            None => None,
        }
    } else if j == 29 {
        match &c.debug_samples {
            Some(v) => Some((SettingKind::DebugSamples, ConfigEntry::Text(v))),
            None => None,
        }
    } else if j == 30 {
        match c.debug_neighbors {
            Some(v) => Some((SettingKind::DebugNeighbors, ConfigEntry::Number(v as u64))),
            None => None,
        }
    } else if j == 31 {
        match c.population {
            Some(v) => Some((SettingKind::Population, ConfigEntry::Number(v as u64))),
            None => None,
        }
    } else if j == 32 {
        match c.generations {
            Some(v) => Some((SettingKind::Generations, ConfigEntry::Number(v as u64))),
            None => None,
        }
    } else if j == 33 {
        match c.elite_count {
            Some(v) => Some((SettingKind::EliteCount, ConfigEntry::Number(v as u64))),
            None => None,
        }
    } else if j == 34 {
        match &c.mutation_rate {
            Some(v) => Some((SettingKind::MutationRate, ConfigEntry::Text(v))),
            None => None,
        }
    } else if j == 35 {
        match &c.validation_ratio {
            Some(v) => Some((SettingKind::ValidationRatio, ConfigEntry::Text(v))),
            None => None,
        }
    } else if j == 36 {
        match c.threads {
            Some(v) => Some((SettingKind::Threads, ConfigEntry::Number(v as u64))),
            None => None,
        }
    } else if j == 37 {
        match &c.evolve_features {
            Some(v) => Some((SettingKind::EvolveFeatures, ConfigEntry::List("evolve_features", v))),
            None => None,
        }
    } else if j == 38 {
        match &c.evolve_image_sizes {
            Some(v) => Some((SettingKind::EvolveImageSizes, ConfigEntry::List("evolve_image_sizes", v))),
            None => None,
        }
    } else if j == 39 {
        match &c.evolve_resize_modes {
            Some(v) => Some((SettingKind::EvolveResizeModes, ConfigEntry::List("evolve_resize_modes", v))),
            None => None,
        }
    } else if j == 40 {
        match &c.evolve_top_k {
            Some(v) => Some((SettingKind::EvolveTopK, ConfigEntry::List("evolve_top_k", v))),
            None => None,
        }
    } else if j == 41 {
        match &c.memory_penalty_per_mb {
            Some(v) => Some((SettingKind::MemoryPenalty, ConfigEntry::Text(v))),
            None => None,
        }
    } else {
        match &c.inference_penalty_per_ms {
            Some(v) => Some((SettingKind::InferencePenalty, ConfigEntry::Text(v))),
            None => None,
        }
    }
}

/// The value a configuration field gives its setting, or why it is refused.
pub open spec fn entry_setting(kind: SettingKind, e: EntryValue) -> Result<SettingValue, ArgFault> {
    match e {
        EntryValue::Text(t) => read_setting(kind, t),
        EntryValue::Number(n) => Ok(SettingValue::Number(n)),
        EntryValue::List(field, l) => match list_csv(field, l) {
            Ok(t) => read_setting(kind, t),
            Err(f) => Err(f),
        },
    }
}

/// The settings, their sources and the refusal, if any, after the fields of
/// the configuration from the `j`-th on are applied in order; a refused
/// field stops with the settings as they were.
pub open spec fn config_run(
    m: ArgsModel,
    s: Map<Seq<char>, ConfigSource>,
    c: BenchConfig,
    j: int,
) -> (ArgsModel, Map<Seq<char>, ConfigSource>, Option<ArgFault>)
    decreases CONFIG_FIELD_COUNT - j,
{
    if j < 0 || j >= CONFIG_FIELD_COUNT {
        (m, s, None)
    } else {
        match config_slot(c, j) {
            None => config_run(m, s, c, j + 1),
            Some((kind, e)) => match entry_setting(kind, e) {
                Ok(v) => config_run(
                    assign(m, kind, v),
                    mark(s, kind, ConfigSource::Config),
                    c,
                    j + 1,
                ),
                Err(f) => (m, s, Some(f)),
            },
        }
    }
}

/// Applies the settings a configuration file holds, recording each as
/// coming from the file.
pub fn apply_config(args: &mut Args, config: &BenchConfig, sources: &mut SourceMap) -> (r: Result<
    (),
    ArgError,
>)
    ensures
        ({
            let out = config_run(old(args)@, old(sources)@, *config, 0);
            &&& final(args)@ == out.0
            &&& final(sources)@ == out.1
            &&& match out.2 {
                None => r is Ok,
                Some(f) => r is Err && r->Err_0@ == f,
            }
        }),
{
    let mut j: usize = 0;
    let mut failure: Option<ArgError> = None;
    while j < CONFIG_FIELD_COUNT && failure.is_none()
        invariant
            j <= CONFIG_FIELD_COUNT,
            failure is None ==> config_run(old(args)@, old(sources)@, *config, 0) == config_run(
                args@,
                sources@,
                *config,
                j as int,
            ),
            failure is Some ==> config_run(old(args)@, old(sources)@, *config, 0) == (
                args@,
                sources@,
                Some(failure->0@),
            ),
        decreases CONFIG_FIELD_COUNT - j, if failure is None { 1int } else { 0int },
    {
        match config_slot_of(config, j) {
            None => {
                j = j + 1;
            },
            Some((kind, entry)) => {
                let read: Result<Setting, ArgError> = match entry {
                    ConfigEntry::Text(t) => {
                        proof {
                            lemma_read_fits(kind, t@);
                        }
                        read_setting_value(kind, t.as_str())
                    },
                    ConfigEntry::Number(n) => Ok(Setting::Number(n)),
                    ConfigEntry::List(field, list) => match config_value_as_csv(list, field) {
                        Ok(t) => {
                            proof {
                                lemma_read_fits(kind, t@);
                            }
                            read_setting_value(kind, t.as_str())
                        },
                        Err(e) => Err(e),
                    },
                };
                match read {
                    Ok(v) => {
                        assign_setting(args, kind, v);
                        mark_source(sources, kind, ConfigSource::Config);
                        j = j + 1;
                    },
                    Err(e) => {
                        failure = Some(e);
                    },
                }
            },
        }
    }
    match failure {
        Some(e) => Err(e),
        None => Ok(()),
    }
}

/// The value, or `<none>`.
pub open spec fn option_text(o: Option<Seq<char>>) -> Seq<char> {
    match o {
        Some(t) => t,
        None => "<none>"@,
    }
}

/// The values joined with `,`, or `[]` when there are none.
pub open spec fn list_text(parts: Seq<Seq<char>>) -> Seq<char> {
    if parts.len() == 0 {
        "[]"@
    } else {
        join_with(parts, ","@)
    }
}

pub open spec fn decimals(ns: Seq<nat>) -> Seq<Seq<char>> {
    ns.map_values(|n: nat| decimal_text(n))
}

/// The text a report shows for the setting `field`; `<unknown>` for a name
/// that is no reported setting.
pub open spec fn report_value(m: ArgsModel, field: Seq<char>) -> Seq<char> {
    if field == "command"@ {
        m.command
    } else if field == "format"@ {
        output_format_text(m.format)
    } else if field == "data_path"@ {
        option_text(m.data_path)
    } else if field == "eval_data_path"@ {
        option_text(m.eval_data_path)
    } else if field == "out_path"@ {
        option_text(m.out_path)
    } else if field == "model_path"@ {
        option_text(m.model_path)
    } else if field == "image_path"@ {
        option_text(m.image_path)
    } else if field == "epochs"@ {
        decimal_text(m.epochs)
    } else if field == "intervals"@ {
        decimal_text(m.intervals)
    } else if field == "correction_mode"@ {
        correction_text(m.correction_mode)
    } else if field == "seed"@ {
        decimal_text(m.seed)
    } else if field == "image_width"@ {
        decimal_text(m.image_width)
    } else if field == "image_height"@ {
        decimal_text(m.image_height)
    } else if field == "image_features"@ {
        m.image_features
    } else if field == "image_resize"@ {
        m.image_resize
    } else if field == "samples_per_class"@ {
        decimal_text(m.samples_per_class)
    } else if field == "top_k"@ {
        decimal_text(m.top_k)
    } else if field == "target_mse"@ {
        option_text(m.target_mse)
    } else if field == "matrix_models"@ {
        list_text(m.matrix_models.map_values(|x: MatrixModel| matrix_model_text(x)))
    } else if field == "matrix_features"@ {
        list_text(m.matrix_features)
    } else if field == "matrix_image_sizes"@ {
        list_text(decimals(m.matrix_image_sizes))
    } else if field == "matrix_intervals"@ {
        list_text(decimals(m.matrix_intervals))
    } else if field == "matrix_seeds"@ {
        list_text(decimals(m.matrix_seeds))
    } else if field == "matrix_resize_modes"@ {
        list_text(m.matrix_resize_modes)
    } else if field == "matrix_correction_modes"@ {
        list_text(m.matrix_correction_modes.map_values(|x: CorrectionChoice| correction_text(x)))
    } else if field == "matrix_top"@ {
        decimal_text(m.matrix_top)
    } else if field == "debug_out_path"@ {
        option_text(m.debug_out_path)
    } else if field == "debug_train_data_path"@ {
        option_text(m.debug_train_data_path)
    } else if field == "debug_limit"@ {
        decimal_text(m.debug_limit)
    } else if field == "debug_samples"@ {
        debug_samples_text(m.debug_samples)
    } else if field == "debug_neighbors"@ {
        decimal_text(m.debug_neighbors)
    } else if field == "evolution_population"@ {
        decimal_text(m.evolution_population)
    } else if field == "evolution_generations"@ {
        decimal_text(m.evolution_generations)
    } else if field == "evolution_elite_count"@ {
        decimal_text(m.evolution_elite_count)
    } else if field == "evolution_mutation_rate"@ {
        m.evolution_mutation_rate
    } else if field == "evolution_validation_ratio"@ {
        m.evolution_validation_ratio
    } else if field == "evolution_threads"@ {
        decimal_text(m.evolution_threads)
    } else if field == "evolution_feature_modes"@ {
        list_text(m.evolution_feature_modes)
    } else if field == "evolution_image_sizes"@ {
        list_text(decimals(m.evolution_image_sizes))
    } else if field == "evolution_resize_modes"@ {
        list_text(m.evolution_resize_modes)
    } else if field == "evolution_top_k_values"@ {
        list_text(decimals(m.evolution_top_k_values))
    } else if field == "evolution_memory_penalty_per_mb"@ {
        m.evolution_memory_penalty_per_mb
    } else if field == "evolution_inference_penalty_per_ms"@ {
        m.evolution_inference_penalty_per_ms
    } else {
        "<unknown>"@
    }
}

/// The decimal digits of `n`.
pub fn decimal_string(n: u64) -> (r: String)
    ensures
        r@ == decimal_text(n as nat),
{
    let mut out = String::new();
    push_decimal(&mut out, n);
    assert(out@ =~= decimal_text(n as nat));
    out
}

fn listed(values: &Vec<String>) -> (r: String)
    ensures
        r@ == list_text(texts_of(values@)),
{
    let r = list_string(values.as_slice());
    assert(values@.map_values(|v: String| v@) =~= texts_of(values@));
    r
}

fn names_list_text(values: &Vec<String>) -> (r: String)
    ensures
        r@ == list_text(texts_of(values@)),
{
    listed(values)
}

fn model_list_text(values: &Vec<MatrixModel>) -> (r: String)
    ensures
        r@ == list_text(values@.map_values(|x: MatrixModel| matrix_model_text(x))),
{
    let mut names: Vec<String> = Vec::new();
    let mut i: usize = 0;
    while i < values.len()
        invariant
            i <= values@.len(),
            texts_of(names@) == values@.take(i as int).map_values(
                |x: MatrixModel| matrix_model_text(x),
            ),
        decreases values@.len() - i,
    {
        let ghost before = names@;
        names.push(string_of(matrix_model_name(values[i])));
        assert(texts_of(names@) =~= texts_of(before).push(matrix_model_text(values@[i as int])));
        assert(values@.take(i + 1).map_values(|x: MatrixModel| matrix_model_text(x))
            =~= values@.take(i as int).map_values(|x: MatrixModel| matrix_model_text(x)).push(
            matrix_model_text(values@[i as int]),
        ));
        i = i + 1;
    }
    assert(values@.take(i as int) =~= values@);
    listed(&names)
}

fn correction_list_text(values: &Vec<CorrectionChoice>) -> (r: String)
    ensures
        r@ == list_text(values@.map_values(|x: CorrectionChoice| correction_text(x))),
{
    let mut names: Vec<String> = Vec::new();
    let mut i: usize = 0;
    while i < values.len()
        invariant
            i <= values@.len(),
            texts_of(names@) == values@.take(i as int).map_values(
                |x: CorrectionChoice| correction_text(x),
            ),
        decreases values@.len() - i,
    {
        let ghost before = names@;
        names.push(string_of(correction_mode_name(values[i])));
        assert(texts_of(names@) =~= texts_of(before).push(correction_text(values@[i as int])));
        assert(values@.take(i + 1).map_values(|x: CorrectionChoice| correction_text(x))
            =~= values@.take(i as int).map_values(|x: CorrectionChoice| correction_text(x)).push(
            correction_text(values@[i as int]),
        ));
        i = i + 1;
    }
    assert(values@.take(i as int) =~= values@);
    listed(&names)
}

fn u64_list_text(values: &Vec<u64>) -> (r: String)
    ensures
        r@ == list_text(decimals(nats_of(values@))),
{
    let mut names: Vec<String> = Vec::new();
    let mut i: usize = 0;
    while i < values.len()
        invariant
            i <= values@.len(),
            texts_of(names@) == decimals(nats_of(values@.take(i as int))),
        decreases values@.len() - i,
    {
        let ghost before = names@;
        names.push(decimal_string(values[i]));
        assert(texts_of(names@) =~= texts_of(before).push(decimal_text(values@[i as int] as nat)));
        assert(decimals(nats_of(values@.take(i + 1))) =~= decimals(nats_of(values@.take(i as int))).push(
            decimal_text(values@[i as int] as nat),
        ));
        i = i + 1;
    }
    assert(values@.take(i as int) =~= values@);
    listed(&names)
}

fn u32_list_text(values: &Vec<u32>) -> (r: String)
    ensures
        r@ == list_text(decimals(nats_u32(values@))),
{
    let mut names: Vec<String> = Vec::new();
    let mut i: usize = 0;
    while i < values.len()
        invariant
            i <= values@.len(),
            texts_of(names@) == decimals(nats_u32(values@.take(i as int))),
        decreases values@.len() - i,
    {
        let ghost before = names@;
        names.push(decimal_string(values[i] as u64));
        assert(texts_of(names@) =~= texts_of(before).push(decimal_text(values@[i as int] as nat)));
        assert(decimals(nats_u32(values@.take(i + 1))) =~= decimals(nats_u32(values@.take(i as int))).push(
            decimal_text(values@[i as int] as nat),
        ));
        i = i + 1;
    }
    assert(values@.take(i as int) =~= values@);
    listed(&names)
}

fn usize_list_text(values: &Vec<usize>) -> (r: String)
    ensures
        r@ == list_text(decimals(nats_usize(values@))),
{
    let mut names: Vec<String> = Vec::new();
    let mut i: usize = 0;
    while i < values.len()
        invariant
            i <= values@.len(),
            texts_of(names@) == decimals(nats_usize(values@.take(i as int))),
        decreases values@.len() - i,
    {
        let ghost before = names@;
        names.push(decimal_string(values[i] as u64));
        assert(texts_of(names@) =~= texts_of(before).push(decimal_text(values@[i as int] as nat)));
        assert(decimals(nats_usize(values@.take(i + 1))) =~= decimals(nats_usize(values@.take(i as int))).push(
            decimal_text(values@[i as int] as nat),
        ));
        i = i + 1;
    }
    assert(values@.take(i as int) =~= values@);
    listed(&names)
}

/// The text a report shows for the setting `field`.
#[verifier::rlimit(60)]
pub fn config_report_value(args: &Args, field: &str) -> (r: String)
    ensures
        r@ == report_value(args@, field@),
{
    if str_eq(field, "command") {
        args.command.clone()
    } else if str_eq(field, "format") {
        string_of(output_format_name(args.format))
    } else if str_eq(field, "data_path") {
        option_string(&args.data_path)
    } else if str_eq(field, "eval_data_path") {
        option_string(&args.eval_data_path)
    } else if str_eq(field, "out_path") {
        option_string(&args.out_path)
    } else if str_eq(field, "model_path") {
        option_string(&args.model_path)
    } else if str_eq(field, "image_path") {
        option_string(&args.image_path)
    } else if str_eq(field, "epochs") {
        decimal_string(args.epochs as u64)
    } else if str_eq(field, "intervals") {
        decimal_string(args.intervals as u64)
    } else if str_eq(field, "correction_mode") {
        string_of(correction_mode_name(args.correction_mode))
    } else if str_eq(field, "seed") {
        decimal_string(args.seed as u64)
    } else if str_eq(field, "image_width") {
        decimal_string(args.image_width as u64)
    } else if str_eq(field, "image_height") {
        decimal_string(args.image_height as u64)
    } else if str_eq(field, "image_features") {
        args.image_features.clone()
    } else if str_eq(field, "image_resize") {
        args.image_resize.clone()
    } else if str_eq(field, "samples_per_class") {
        decimal_string(args.samples_per_class as u64)
    } else if str_eq(field, "top_k") {
        decimal_string(args.top_k as u64)
    } else if str_eq(field, "target_mse") {
        option_string(&args.target_mse)
    } else if str_eq(field, "matrix_models") {
        model_list_text(&args.matrix_models)
    } else if str_eq(field, "matrix_features") {
        names_list_text(&args.matrix_features)
    } else if str_eq(field, "matrix_image_sizes") {
        u32_list_text(&args.matrix_image_sizes)
    } else if str_eq(field, "matrix_intervals") {
        usize_list_text(&args.matrix_intervals)
    } else if str_eq(field, "matrix_seeds") {
        u64_list_text(&args.matrix_seeds)
    } else if str_eq(field, "matrix_resize_modes") {
        names_list_text(&args.matrix_resize_modes)
    } else if str_eq(field, "matrix_correction_modes") {
        correction_list_text(&args.matrix_correction_modes)
    } else if str_eq(field, "matrix_top") {
        decimal_string(args.matrix_top as u64)
    } else if str_eq(field, "debug_out_path") {
        option_string(&args.debug_out_path)
    } else if str_eq(field, "debug_train_data_path") {
        option_string(&args.debug_train_data_path)
    } else if str_eq(field, "debug_limit") {
        decimal_string(args.debug_limit as u64)
    } else if str_eq(field, "debug_samples") {
        string_of(args.debug_samples.as_str())
    } else if str_eq(field, "debug_neighbors") {
        decimal_string(args.debug_neighbors as u64)
    } else if str_eq(field, "evolution_population") {
        decimal_string(args.evolution_population as u64)
    } else if str_eq(field, "evolution_generations") {
        decimal_string(args.evolution_generations as u64)
    } else if str_eq(field, "evolution_elite_count") {
        decimal_string(args.evolution_elite_count as u64)
    } else if str_eq(field, "evolution_mutation_rate") {
        args.evolution_mutation_rate.clone()
    } else if str_eq(field, "evolution_validation_ratio") {
        args.evolution_validation_ratio.clone()
    } else if str_eq(field, "evolution_threads") {
        decimal_string(args.evolution_threads as u64)
    } else if str_eq(field, "evolution_feature_modes") {
        names_list_text(&args.evolution_feature_modes)
    } else if str_eq(field, "evolution_image_sizes") {
        u32_list_text(&args.evolution_image_sizes)
    } else if str_eq(field, "evolution_resize_modes") {
        names_list_text(&args.evolution_resize_modes)
    } else if str_eq(field, "evolution_top_k_values") {
        usize_list_text(&args.evolution_top_k_values)
    } else if str_eq(field, "evolution_memory_penalty_per_mb") {
        args.evolution_memory_penalty_per_mb.clone()
    } else if str_eq(field, "evolution_inference_penalty_per_ms") {
        args.evolution_inference_penalty_per_ms.clone()
    } else {
        string_of("<unknown>")
    }
}

/// Where the setting `field` came from: its record, or its default.
pub open spec fn source_or_default(s: Map<Seq<char>, ConfigSource>, field: Seq<char>) -> ConfigSource {
    if s.contains_key(field) {
        s[field]
    } else {
        ConfigSource::Default
    }
}

/// The report of every reported setting: its name, its value and where it
/// came from, in report order.
pub fn build_config_report(path: String, args: &Args, sources: &SourceMap) -> (r: ConfigReport)
    ensures
        describes(r, path@, args@, sources@),
{
    let fields = report_fields();
    let mut entries: Vec<ConfigReportEntry> = Vec::new();
    let mut i: usize = 0;
    while i < fields.len()
        invariant
            i <= fields@.len(),
            fields@.len() == report_field_names().len(),
            forall|j: int| 0 <= j < fields@.len() ==> (#[trigger] fields@[j])@ == report_field_names()[j],
            entries@.len() == i,
            forall|j: int|
                0 <= j < i ==> {
                    let e = #[trigger] entries@[j];
                    &&& e.name@ == report_field_names()[j]
                    &&& e.value@ == report_value(args@, report_field_names()[j])
                    &&& e.source == source_or_default(sources@, report_field_names()[j])
                },
        decreases fields@.len() - i,
    {
        let field = fields[i];
        let source = match sources.get(field) {
            Some(s) => s,
            None => ConfigSource::Default,
        };
        entries.push(ConfigReportEntry {
            name: field,
            value: config_report_value(args, field),
            source,
        });
        i = i + 1;
    }
    ConfigReport { path, entries }
}

/// The report describes the settings `m` with their sources `s` under the
/// path `path`: one entry per reported setting, in report order.
pub open spec fn describes(
    rep: ConfigReport,
    path: Seq<char>,
    m: ArgsModel,
    s: Map<Seq<char>, ConfigSource>,
) -> bool {
    &&& rep.path@ == path
    &&& rep.entries@.len() == report_field_names().len()
    &&& forall|i: int|
        0 <= i < rep.entries@.len() ==> {
            let e = #[trigger] rep.entries@[i];
            &&& e.name@ == report_field_names()[i]
            &&& e.value@ == report_value(m, report_field_names()[i])
            &&& e.source == source_or_default(s, report_field_names()[i])
        }
}

/// The first argument names the command when it is not a flag.
pub open spec fn positional_command(raw: Seq<Seq<char>>) -> bool {
    raw.len() > 0 && !has_prefix(raw[0], "--"@)
}

/// The settings and their sources that a command line and a configuration
/// give: the defaults of the command (the first argument unless it is a
/// flag, else the configuration's), then the configuration's fields, then
/// the flags; the first refusal stops.
pub open spec fn resolve_run(
    raw: Seq<Seq<char>>,
    config: Option<BenchConfig>,
    artifact: Option<Seq<char>>,
) -> Result<
    (ArgsModel, Map<Seq<char>, ConfigSource>),
    ArgFault,
> {
    let from_cli = positional_command(raw);
    let command = if from_cli {
        Some(raw[0])
    } else {
        match config {
            Some(c) => opt_text(c.command),
            None => None,
        }
    };
    match command {
        None => Err(ArgFault::MissingCommand),
        Some(cmd) => {
            let s0 = default_source_map().insert(
                "command"@,
                if from_cli {
                    ConfigSource::Cli
                } else {
                    ConfigSource::Config
                },
            );
            let after_config = match config {
                Some(c) => config_run(default_model(cmd), s0, c, 0),
                None => (default_model(cmd), s0, None),
            };
            match after_config.2 {
                Some(f) => Err(f),
                None => {
                    let with_artifact = match artifact {
                        Some(a) => (
                            assign(after_config.0, SettingKind::SearchArtifactPath, SettingValue::Text(a)),
                            mark(after_config.1, SettingKind::SearchArtifactPath, ConfigSource::Cli),
                        ),
                        None => (after_config.0, after_config.1),
                    };
                    let after_cli = cli_run(
                        with_artifact.0,
                        with_artifact.1,
                        raw,
                        if from_cli {
                            1
                        } else {
                            0
                        },
                    );
                    match after_cli.2 {
                        Some(f) => Err(f),
                        None => Ok((after_cli.0, after_cli.1)),
                    }
                },
            }
        },
    }
}

/// The path a report is made under: the configuration file, or else the
/// search artifact the settings name.
pub open spec fn report_path(config_path: Option<Seq<char>>, m: ArgsModel) -> Option<Seq<char>> {
    match config_path {
        Some(p) => Some(p),
        None => match m.search_artifact_path {
            Some(a) => Some("search artifact: "@ + a),
            None => None,
        },
    }
}

#[verifier::spinoff_prover]
proof fn lemma_config_run_keeps_report(
    m: ArgsModel,
    s: Map<Seq<char>, ConfigSource>,
    c: BenchConfig,
    j: int,
)
    ensures
        config_run(m, s, c, j).0.config_report == m.config_report,
    decreases CONFIG_FIELD_COUNT - j,
{
    if 0 <= j < CONFIG_FIELD_COUNT {
        match config_slot(c, j) {
            None => lemma_config_run_keeps_report(m, s, c, j + 1),
            Some((kind, e)) => match entry_setting(kind, e) {
                Ok(v) => lemma_config_run_keeps_report(
                    assign(m, kind, v),
                    mark(s, kind, ConfigSource::Config),
                    c,
                    j + 1,
                ),
                Err(f) => {},
            },
        }
    }
}

#[verifier::spinoff_prover]
#[verifier::rlimit(50)]
proof fn lemma_cli_run_keeps_report(
    m: ArgsModel,
    s: Map<Seq<char>, ConfigSource>,
    raw: Seq<Seq<char>>,
    i: int,
)
    ensures
        cli_run(m, s, raw, i).0.config_report == m.config_report,
    decreases raw.len() + 1 - i,
{
    if 0 <= i < raw.len() {
        let flag = raw[i];
        if inline_config_path(flag) is Some {
            lemma_cli_run_keeps_report(m, s, raw, i + 1);
        } else if is_config_flag(flag) {
            lemma_cli_run_keeps_report(m, s, raw, i + 2);
        } else {
            match flag_rule(flag) {
                FlagRule::TakesValue(kind) => if i + 1 < raw.len() {
                    match read_setting(kind, raw[i + 1]) {
                        Ok(v) => lemma_cli_run_keeps_report(
                            assign(m, kind, v),
                            mark(s, kind, ConfigSource::Cli),
                            raw,
                            i + 2,
                        ),
                        Err(f) => {},
                    }
                },
                FlagRule::Inline(kind, n) => match read_setting(kind, flag.skip(n as int)) {
                    Ok(v) => lemma_cli_run_keeps_report(
                        assign(m, kind, v),
                        mark(s, kind, ConfigSource::Cli),
                        raw,
                        i + 1,
                    ),
                    Err(f) => {},
                },
                FlagRule::Ignored => lemma_cli_run_keeps_report(m, s, raw, i + 1),
                _ => {},
            }
        }
    }
}

/// The settings of a run from its command line and the configuration file
/// it names (already read), with the report of every setting's source when
/// a configuration or a search artifact is named.
pub fn resolve_args(
    raw: &[String],
    config: Option<&BenchConfig>,
    config_path: Option<String>,
    artifact_path: Option<String>,
) -> (r: Result<Args, ArgError>)
    requires
        raw@.len() + 2 <= usize::MAX,
    ensures
        match resolve_run(
            views_of(raw@),
            match config {
                Some(c) => Some(*c),
                None => None,
            },
            opt_text(artifact_path),
        ) {
            Err(f) => r is Err && r->Err_0@ == f,
            Ok((m, s)) => r is Ok && ArgsModel { config_report: None, ..r->Ok_0@ } == ArgsModel {
                config_report: None,
                ..m
            } && match report_path(opt_text(config_path), m) {
                Some(p) => r->Ok_0.config_report matches Some(rep) && describes(rep, p, m, s),
                None => r->Ok_0.config_report is None,
            },
        },
{
    let ghost views = views_of(raw@);
    let ghost cfg = match config {
        Some(c) => Some(*c),
        None => None,
    };
    let from_cli = raw.len() > 0 && !starts_with(raw[0].as_str(), "--");
    assert(from_cli == positional_command(views)) by {
        if raw@.len() > 0 {
            assert(views[0] == raw@[0]@);
        }
    }
    let command = if from_cli {
        raw[0].clone()
    } else {
        match config {
            Some(c) => match &c.command {
                Some(cmd) => cmd.clone(),
                None => {
                    return Err(ArgError::MissingCommand);
                },
            },
            None => {
                return Err(ArgError::MissingCommand);
            },
        }
    };
    let ghost old_command = command@;
    let mut args = default_args(command);
    let mut sources = default_sources();
    set_source(
        &mut sources,
        "command",
        if from_cli {
            ConfigSource::Cli
        } else {
            ConfigSource::Config
        },
    );
    match config {
        Some(c) => {
            match apply_config(&mut args, c, &mut sources) {
                Ok(()) => {},
                Err(e) => {
                    return Err(e);
                },
            }
        },
        None => {},
    }
    let ghost config_report_before = args@.config_report;
    match artifact_path {
        Some(a) => {
            assign_setting(&mut args, SettingKind::SearchArtifactPath, Setting::Text(a));
            mark_source(&mut sources, SettingKind::SearchArtifactPath, ConfigSource::Cli);
        },
        None => {},
    }
    assert(args@.config_report == config_report_before);
    let ghost after_config = (args@, sources@);
    match apply_cli_flags(&mut args, raw, from_cli, &mut sources) {
        Ok(()) => {},
        Err(e) => {
            return Err(e);
        },
    }
    proof {
        let from = if from_cli {
            ConfigSource::Cli
        } else {
            ConfigSource::Config
        };
        let s0 = default_source_map().insert("command"@, from);
        let m0 = default_model(old_command);
        lemma_cli_run_keeps_report(after_config.0, after_config.1, views, if from_cli {
            1
        } else {
            0
        });
        if let Some(c) = cfg {
            lemma_config_run_keeps_report(m0, s0, c, 0);
        }
    }
    let ghost settled = args@;
    let path = match config_path {
        Some(p) => Some(p),
        None => match &args.search_artifact_path {
            Some(a) => {
                let mut p = string_of("search artifact: ");
                p.append(a.as_str());
                Some(p)
            },
            None => None,
        },
    };
    match path {
        Some(p) => {
            let report = build_config_report(p, &args, &sources);
            args.config_report = Some(report);
        },
        None => {},
    }
    Ok(args)
}

} // verus!
