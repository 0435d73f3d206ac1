//! Command-line vocabulary of the research bench: output formats, model
//! names, debug sample selections, and the scan for a configuration file.
use vstd::prelude::*;
use vstd::string::StringExecFns;

use crate::metrics::join_with;
use crate::numbers::NumberFault;

use crate::text::{
    chars_of, csv_values, has_prefix, push_char, split_csv_values, str_eq, starts_with,
    strip_prefix, string_of,
};

verus! {

/// How results are printed.
#[derive(Debug, Clone, Copy, PartialEq, Eq, Structural)]
pub enum OutputFormat {
    Json,
    Csv,
}

/// A model family of the comparison matrix.
#[derive(Debug, Clone, Copy, PartialEq, Eq, Structural)]
pub enum MatrixModel {
    Pann,
    Panc,
    Centroid,
}

/// Which evaluated samples a debug report shows.
#[derive(Debug, Clone, Copy, PartialEq, Eq, Structural)]
pub enum DebugSamples {
    Misclassified,
    All,
    Correct,
}

/// Where a setting came from.
#[derive(Debug, Clone, Copy, PartialEq, Eq, Structural)]
pub enum ConfigSource {
    Default,
    Config,
    Cli,
}

/// A refused command-line value.
#[derive(Debug, Clone, PartialEq, Eq)]
pub enum ArgError {
    /// `--format` got something other than `json` or `csv`.
    InvalidFormat(String),
    /// A matrix model name that names no model.
    InvalidMatrixModel(String),
    /// `--debug-samples` got an unknown selection.
    InvalidDebugSamples(String),
    /// The flag was the last argument, with no value after it.
    MissingValue(String),
    /// A value that is not an unsigned integer of the setting's range.
    InvalidNumber(String, NumberFault),
    /// A correction rule name that names no rule.
    InvalidCorrectionMode(String),
    /// An argument that is not a flag where a flag was expected.
    UnexpectedArgument(String),
    /// A flag that names no setting.
    UnknownOption(String),
    /// A configuration list field holding neither text nor a list; the field
    /// and the value as written in the file.
    ConfigNotList(String, String),
    /// A configuration list holding an item that is neither text nor a
    /// number; the field and the item as written in the file.
    ConfigItemUnsupported(String, String),
    /// Neither the first argument nor the configuration names a command.
    MissingCommand,
    /// A name that is no image feature mode.
    InvalidImageFeatures(String),
    /// A name that is no image resize mode.
    InvalidImageResize(String),
    /// A value that is no floating-point number.
    InvalidFloat(String),
}

/// A refused value, by its text.
pub enum ArgFault {
    InvalidFormat(Seq<char>),
    InvalidMatrixModel(Seq<char>),
    InvalidDebugSamples(Seq<char>),
    MissingValue(Seq<char>),
    InvalidNumber(Seq<char>, NumberFault),
    InvalidCorrectionMode(Seq<char>),
    UnexpectedArgument(Seq<char>),
    UnknownOption(Seq<char>),
    ConfigNotList(Seq<char>, Seq<char>),
    ConfigItemUnsupported(Seq<char>, Seq<char>),
    MissingCommand,
    InvalidImageFeatures(Seq<char>),
    InvalidImageResize(Seq<char>),
    InvalidFloat(Seq<char>),
}

impl View for ArgError {
    type V = ArgFault;

    open spec fn view(&self) -> ArgFault {
        match self {
            ArgError::InvalidFormat(s) => ArgFault::InvalidFormat(s@),
            ArgError::InvalidMatrixModel(s) => ArgFault::InvalidMatrixModel(s@),
            ArgError::InvalidDebugSamples(s) => ArgFault::InvalidDebugSamples(s@),
            ArgError::InvalidImageFeatures(s) => ArgFault::InvalidImageFeatures(s@),
            ArgError::InvalidImageResize(s) => ArgFault::InvalidImageResize(s@),
            ArgError::InvalidFloat(s) => ArgFault::InvalidFloat(s@),
            ArgError::MissingValue(s) => ArgFault::MissingValue(s@),
            ArgError::InvalidNumber(s, f) => ArgFault::InvalidNumber(s@, *f),
            ArgError::InvalidCorrectionMode(s) => ArgFault::InvalidCorrectionMode(s@),
            ArgError::UnexpectedArgument(s) => ArgFault::UnexpectedArgument(s@),
            ArgError::UnknownOption(s) => ArgFault::UnknownOption(s@),
            ArgError::ConfigNotList(a, b) => ArgFault::ConfigNotList(a@, b@),
            ArgError::ConfigItemUnsupported(a, b) => ArgFault::ConfigItemUnsupported(a@, b@),
            ArgError::MissingCommand => ArgFault::MissingCommand,
        }
    }
}

pub open spec fn debug_samples_text(s: DebugSamples) -> Seq<char> {
    match s {
        DebugSamples::Misclassified => "misclassified"@,
        DebugSamples::All => "all"@,
        DebugSamples::Correct => "correct"@,
    }
}

impl DebugSamples {
    /// The selection's name.
    pub fn as_str(self) -> (r: &'static str)
        ensures
            r@ == debug_samples_text(self),
    {
        match self {
            DebugSamples::Misclassified => "misclassified",
            DebugSamples::All => "all",
            DebugSamples::Correct => "correct",
        }
    }
}

pub open spec fn config_source_text(s: ConfigSource) -> Seq<char> {
    match s {
        ConfigSource::Default => "default"@,
        ConfigSource::Config => "config"@,
        ConfigSource::Cli => "cli"@,
    }
}

impl ConfigSource {
    /// The source's name.
    pub fn as_str(self) -> (r: &'static str)
        ensures
            r@ == config_source_text(self),
    {
        match self {
            ConfigSource::Default => "default",
            ConfigSource::Config => "config",
            ConfigSource::Cli => "cli",
        }
    }
}

pub open spec fn output_format_text(f: OutputFormat) -> Seq<char> {
    match f {
        OutputFormat::Json => "json"@,
        OutputFormat::Csv => "csv"@,
    }
}

/// The format's name.
pub fn output_format_name(format: OutputFormat) -> (r: &'static str)
    ensures
        r@ == output_format_text(format),
{
    match format {
        OutputFormat::Json => "json",
        OutputFormat::Csv => "csv",
    }
}

pub open spec fn matrix_model_text(m: MatrixModel) -> Seq<char> {
    match m {
        MatrixModel::Pann => "pann"@,
        MatrixModel::Panc => "panc"@,
        MatrixModel::Centroid => "centroid"@,
    }
}

/// The model's name.
pub fn matrix_model_name(model: MatrixModel) -> (r: &'static str)
    ensures
        r@ == matrix_model_text(model),
{
    match model {
        MatrixModel::Pann => "pann",
        MatrixModel::Panc => "panc",
        MatrixModel::Centroid => "centroid",
    }
}

/// Reads an output format: `json` or `csv`.
pub fn parse_format(value: &str) -> (r: Result<OutputFormat, ArgError>)
    ensures
        value@ == "json"@ ==> r == Ok::<OutputFormat, ArgError>(OutputFormat::Json),
        value@ != "json"@ && value@ == "csv"@ ==> r == Ok::<OutputFormat, ArgError>(
            OutputFormat::Csv,
        ),
        value@ != "json"@ && value@ != "csv"@ ==> (r matches Err(ArgError::InvalidFormat(s))
            && s@ == value@),
{
    if str_eq(value, "json") {
        Ok(OutputFormat::Json)
    } else if str_eq(value, "csv") {
        Ok(OutputFormat::Csv)
    } else {
        Err(ArgError::InvalidFormat(string_of(value)))
    }
}

/// Names that select misclassified samples.
pub open spec fn misclassified_names(v: Seq<char>) -> bool {
    v == "misclassified"@ || v == "wrong"@ || v == "errors"@
}

/// Reads a debug sample selection: `misclassified` (also `wrong`, `errors`),
/// `all` or `correct`.
pub fn parse_debug_samples(value: &str) -> (r: Result<DebugSamples, ArgError>)
    ensures
        misclassified_names(value@) ==> r == Ok::<DebugSamples, ArgError>(
            DebugSamples::Misclassified,
        ),
        !misclassified_names(value@) && value@ == "all"@ ==> r == Ok::<DebugSamples, ArgError>(
            DebugSamples::All,
        ),
        !misclassified_names(value@) && value@ != "all"@ && value@ == "correct"@ ==> r == Ok::<
            DebugSamples,
            ArgError,
        >(DebugSamples::Correct),
        !misclassified_names(value@) && value@ != "all"@ && value@ != "correct"@ ==> (r matches Err(
            ArgError::InvalidDebugSamples(s),
        ) && s@ == value@),
{
    if str_eq(value, "misclassified") || str_eq(value, "wrong") || str_eq(value, "errors") {
        Ok(DebugSamples::Misclassified)
    } else if str_eq(value, "all") {
        Ok(DebugSamples::All)
    } else if str_eq(value, "correct") {
        Ok(DebugSamples::Correct)
    } else {
        Err(ArgError::InvalidDebugSamples(string_of(value)))
    }
}

/// Names that select the PANC model.
pub open spec fn panc_names(v: Seq<char>) -> bool {
    v == "panc"@ || v == "panc_like"@ || v == "panc-like"@
}

/// Names that select the nearest-centroid baseline.
pub open spec fn centroid_names(v: Seq<char>) -> bool {
    v == "centroid"@ || v == "nearest-centroid"@ || v == "nearest_centroid"@ || v == "baseline"@
}

/// The model a name selects, if any.
pub open spec fn matrix_model_named(v: Seq<char>) -> Option<MatrixModel> {
    if v == "pann"@ {
        Some(MatrixModel::Pann)
    } else if panc_names(v) {
        Some(MatrixModel::Panc)
    } else if centroid_names(v) {
        Some(MatrixModel::Centroid)
    } else {
        None
    }
}

/// Reads one matrix model name.
pub fn parse_matrix_model(value: &str) -> (r: Result<MatrixModel, ArgError>)
    ensures
        matrix_model_named(value@) is Some ==> r == Ok::<MatrixModel, ArgError>(
            matrix_model_named(value@)->0,
        ),
        matrix_model_named(value@) is None ==> (r matches Err(ArgError::InvalidMatrixModel(s))
            && s@ == value@),
{
    if str_eq(value, "pann") {
        Ok(MatrixModel::Pann)
    } else if str_eq(value, "panc") || str_eq(value, "panc_like") || str_eq(value, "panc-like") {
        Ok(MatrixModel::Panc)
    } else if str_eq(value, "centroid") || str_eq(value, "nearest-centroid") || str_eq(
        value,
        "nearest_centroid",
    ) || str_eq(value, "baseline") {
        Ok(MatrixModel::Centroid)
    } else {
        Err(ArgError::InvalidMatrixModel(string_of(value)))
    }
}

/// A flag that names a configuration file, with its path in the next
/// argument.
pub open spec fn is_config_flag(v: Seq<char>) -> bool {
    v == "--config"@ || v == "--config.location"@ || v == "--config-location"@
}

/// An argument that names a configuration file inline, after `=`.
pub open spec fn inline_config_path(v: Seq<char>) -> Option<Seq<char>> {
    if has_prefix(v, "--config="@) {
        Some(v.skip("--config="@.len() as int))
    } else if has_prefix(v, "--config.location="@) {
        Some(v.skip("--config.location="@.len() as int))
    } else {
        None
    }
}

/// Scans the arguments from position `i` on for the configuration path; the
/// last one named wins. A configuration flag without a following argument is
/// refused with that flag.
pub open spec fn config_path_scan(raw: Seq<Seq<char>>, i: int, found: Option<Seq<char>>) -> Result<
    Option<Seq<char>>,
    Seq<char>,
>
    decreases raw.len() - i,
{
    if i < 0 || i >= raw.len() {
        Ok(found)
    } else if inline_config_path(raw[i]) is Some {
        config_path_scan(raw, i + 1, inline_config_path(raw[i]))
    } else if is_config_flag(raw[i]) {
        if i + 1 < raw.len() {
            config_path_scan(raw, i + 2, Some(raw[i + 1]))
        } else {
            Err(raw[i])
        }
    } else {
        config_path_scan(raw, i + 1, found)
    }
}

pub open spec fn views_of(raw: Seq<String>) -> Seq<Seq<char>> {
    raw.map_values(|s: String| s@)
}

fn is_config_flag_exec(value: &str) -> (r: bool)
    ensures
        r == is_config_flag(value@),
{
    str_eq(value, "--config") || str_eq(value, "--config.location") || str_eq(
        value,
        "--config-location",
    )
}

fn inline_config_path_exec(value: &str) -> (r: Option<String>)
    ensures
        r is Some == inline_config_path(value@) is Some,
        r is Some ==> r->0@ == inline_config_path(value@)->0,
{
    match strip_prefix(value, "--config=") {
        Some(path) => Some(path),
        None => strip_prefix(value, "--config.location="),
    }
}

/// Finds the configuration file named on the command line, if any.
pub fn find_config_path(raw: &[String]) -> (r: Result<Option<String>, ArgError>)
    ensures
        config_path_scan(views_of(raw@), 0, None) matches Ok(found) ==> r is Ok && (
        found is None <==> r->Ok_0 is None) && (found is Some ==> r->Ok_0->0@ == found->0),
        config_path_scan(views_of(raw@), 0, None) matches Err(flag) ==> (r matches Err(
            ArgError::MissingValue(f),
        ) && f@ == flag),
{
    let ghost views = views_of(raw@);
    let mut index: usize = 0;
    let mut config_path: Option<String> = None;
    while index < raw.len()
        invariant
            views == views_of(raw@),
            config_path_scan(views, 0, None) == config_path_scan(
                views,
                index as int,
                match config_path {
                    Some(p) => Some(p@),
                    None => None,
                },
            ),
        decreases raw.len() - index,
    {
        let value = raw[index].as_str();
        assert(views[index as int] == value@);
        match inline_config_path_exec(value) {
            Some(path) => {
                config_path = Some(path);
                index = index + 1;
            },
            None => {
                if is_config_flag_exec(value) {
                    if index + 1 >= raw.len() {
                        return Err(ArgError::MissingValue(string_of(value)));
                    }
                    assert(views[index + 1] == raw@[index + 1]@);
                    config_path = Some(raw[index + 1].clone());
                    index = index + 2;
                } else {
                    index = index + 1;
                }
            },
        }
    }
    Ok(config_path)
}

/// A flag that names a search artifact, with its path in the next argument.
pub open spec fn is_artifact_flag(v: Seq<char>) -> bool {
    v == "--search-artifact"@ || v == "--search-artifact.location"@ || v
        == "--search-artifact-location"@
}

/// An argument that names a search artifact inline, after `=`.
pub open spec fn inline_artifact_path(v: Seq<char>) -> Option<Seq<char>> {
    if has_prefix(v, "--search-artifact="@) {
        Some(v.skip("--search-artifact="@.len() as int))
    } else if has_prefix(v, "--search-artifact.location="@) {
        Some(v.skip("--search-artifact.location="@.len() as int))
    } else {
        None
    }
}

/// Scans the arguments from position `i` on for the search artifact path;
/// the last one named wins. An artifact flag without a following argument
/// is refused with that flag.
pub open spec fn artifact_path_scan(raw: Seq<Seq<char>>, i: int, found: Option<Seq<char>>) -> Result<
    Option<Seq<char>>,
    Seq<char>,
>
    decreases raw.len() - i,
{
    if i < 0 || i >= raw.len() {
        Ok(found)
    } else if inline_artifact_path(raw[i]) is Some {
        artifact_path_scan(raw, i + 1, inline_artifact_path(raw[i]))
    } else if is_artifact_flag(raw[i]) {
        if i + 1 < raw.len() {
            artifact_path_scan(raw, i + 2, Some(raw[i + 1]))
        } else {
            Err(raw[i])
        }
    } else {
        artifact_path_scan(raw, i + 1, found)
    }
}

fn is_artifact_flag_exec(value: &str) -> (r: bool)
    ensures
        r == is_artifact_flag(value@),
{
    str_eq(value, "--search-artifact") || str_eq(value, "--search-artifact.location") || str_eq(
        value,
        "--search-artifact-location",
    )
}

fn inline_artifact_path_exec(value: &str) -> (r: Option<String>)
    ensures
        r is Some == inline_artifact_path(value@) is Some,
        r is Some ==> r->0@ == inline_artifact_path(value@)->0,
{
    match strip_prefix(value, "--search-artifact=") {
        Some(path) => Some(path),
        None => strip_prefix(value, "--search-artifact.location="),
    }
}

/// Finds the search artifact named on the command line, if any.
pub fn find_search_artifact_path(raw: &[String]) -> (r: Result<Option<String>, ArgError>)
    ensures
        artifact_path_scan(views_of(raw@), 0, None) matches Ok(found) ==> r is Ok && (found is None
            <==> r->Ok_0 is None) && (found is Some ==> r->Ok_0->0@ == found->0),
        artifact_path_scan(views_of(raw@), 0, None) matches Err(flag) ==> (r matches Err(
            ArgError::MissingValue(f),
        ) && f@ == flag),
{
    let ghost views = views_of(raw@);
    let mut index: usize = 0;
    let mut artifact_path: Option<String> = None;
    while index < raw.len()
        invariant
            views == views_of(raw@),
            artifact_path_scan(views, 0, None) == artifact_path_scan(
                views,
                index as int,
                match artifact_path {
                    Some(p) => Some(p@),
                    None => None,
                },
            ),
        decreases raw.len() - index,
    {
        let value = raw[index].as_str();
        assert(views[index as int] == value@);
        match inline_artifact_path_exec(value) {
            Some(path) => {
                artifact_path = Some(path);
                index = index + 1;
            },
            None => {
                if is_artifact_flag_exec(value) {
                    if index + 1 >= raw.len() {
                        return Err(ArgError::MissingValue(string_of(value)));
                    }
                    assert(views[index + 1] == raw@[index + 1]@);
                    artifact_path = Some(raw[index + 1].clone());
                    index = index + 2;
                } else {
                    index = index + 1;
                }
            },
        }
    }
    Ok(artifact_path)
}

/// Whether the argument at `index` is a configuration flag; if so, moves
/// `index` past it (and past its value for the separate form).
pub fn skip_config_flag(raw: &[String], index: &mut usize) -> (r: bool)
    requires
        *old(index) < raw@.len(),
        *old(index) + 2 <= usize::MAX,
    ensures
        inline_config_path(raw@[*old(index) as int]@) is Some ==> r && *final(index) == *old(index)
            + 1,
        inline_config_path(raw@[*old(index) as int]@) is None && is_config_flag(
            raw@[*old(index) as int]@,
        ) ==> r && *final(index) == *old(index) + 2,
        inline_config_path(raw@[*old(index) as int]@) is None && !is_config_flag(
            raw@[*old(index) as int]@,
        ) ==> !r && *final(index) == *old(index),
{
    let value = raw[*index].as_str();
    if starts_with(value, "--config=") || starts_with(value, "--config.location=") {
        *index = *index + 1;
        return true;
    }
    if is_config_flag_exec(value) {
        *index = *index + 2;
        return true;
    }
    false
}

/// Moves to the next argument and returns it as the value of `flag`.
pub fn next_value(raw: &[String], index: &mut usize, flag: &str) -> (r: Result<String, ArgError>)
    requires
        *old(index) < usize::MAX,
    ensures
        *final(index) == *old(index) + 1,
        *final(index) < raw@.len() ==> r is Ok && r->Ok_0@ == raw@[*final(index) as int]@,
        *final(index) >= raw@.len() ==> (r matches Err(ArgError::MissingValue(f)) && f@ == flag@),
{
    *index = *index + 1;
    if *index < raw.len() {
        Ok(raw[*index].clone())
    } else {
        Err(ArgError::MissingValue(string_of(flag)))
    }
}


/// Names of the settings a configuration report lists, in report order.
pub open spec fn report_field_names() -> Seq<Seq<char>> {
    seq![
        "command"@,
        "format"@,
        "data_path"@,
        "eval_data_path"@,
        "out_path"@,
        "model_path"@,
        "image_path"@,
        "epochs"@,
        "intervals"@,
        "correction_mode"@,
        "seed"@,
        "image_width"@,
        "image_height"@,
        "image_features"@,
        "image_resize"@,
        "samples_per_class"@,
        "top_k"@,
        "target_mse"@,
        "matrix_models"@,
        "matrix_features"@,
        "matrix_image_sizes"@,
        "matrix_intervals"@,
        "matrix_seeds"@,
        "matrix_resize_modes"@,
        "matrix_correction_modes"@,
        "matrix_top"@,
        "debug_out_path"@,
        "debug_train_data_path"@,
        "debug_limit"@,
        "debug_samples"@,
        "debug_neighbors"@,
        "evolution_population"@,
        "evolution_generations"@,
        "evolution_elite_count"@,
        "evolution_mutation_rate"@,
        "evolution_validation_ratio"@,
        "evolution_threads"@,
        "evolution_feature_modes"@,
        "evolution_image_sizes"@,
        "evolution_resize_modes"@,
        "evolution_top_k_values"@,
        "evolution_memory_penalty_per_mb"@,
        "evolution_inference_penalty_per_ms"@
    ]
}

/// The settings a configuration report lists, in report order.
pub fn report_fields() -> (r: Vec<&'static str>)
    ensures
        r@.len() == report_field_names().len(),
        forall|i: int| 0 <= i < r@.len() ==> (#[trigger] r@[i])@ == report_field_names()[i],
{
    let mut v: Vec<&'static str> = Vec::new();
    v.push("command");
    v.push("format");
    v.push("data_path");
    v.push("eval_data_path");
    v.push("out_path");
    v.push("model_path");
    v.push("image_path");
    v.push("epochs");
    v.push("intervals");
    v.push("correction_mode");
    v.push("seed");
    v.push("image_width");
    v.push("image_height");
    v.push("image_features");
    v.push("image_resize");
    v.push("samples_per_class");
    v.push("top_k");
    v.push("target_mse");
    v.push("matrix_models");
    v.push("matrix_features");
    v.push("matrix_image_sizes");
    v.push("matrix_intervals");
    v.push("matrix_seeds");
    v.push("matrix_resize_modes");
    v.push("matrix_correction_modes");
    v.push("matrix_top");
    v.push("debug_out_path");
    v.push("debug_train_data_path");
    v.push("debug_limit");
    v.push("debug_samples");
    v.push("debug_neighbors");
    v.push("evolution_population");
    v.push("evolution_generations");
    v.push("evolution_elite_count");
    v.push("evolution_mutation_rate");
    v.push("evolution_validation_ratio");
    v.push("evolution_threads");
    v.push("evolution_feature_modes");
    v.push("evolution_image_sizes");
    v.push("evolution_resize_modes");
    v.push("evolution_top_k_values");
    v.push("evolution_memory_penalty_per_mb");
    v.push("evolution_inference_penalty_per_ms");
    v
}

/// Where each named setting came from; a name occurs at most once.
pub struct SourceMap {
    entries: Vec<(&'static str, ConfigSource)>,
}

pub open spec fn entries_map(entries: Seq<(&'static str, ConfigSource)>) -> Map<
    Seq<char>,
    ConfigSource,
>
    decreases entries.len(),
{
    if entries.len() == 0 {
        Map::empty()
    } else {
        entries_map(entries.drop_last()).insert(entries.last().0@, entries.last().1)
    }
}

proof fn lemma_entries_map_update(
    entries: Seq<(&'static str, ConfigSource)>,
    i: int,
    field: &'static str,
    source: ConfigSource,
)
    requires
        0 <= i < entries.len(),
        entries[i].0@ == field@,
        forall|a: int, b: int|
            0 <= a < b < entries.len() ==> (#[trigger] entries[a]).0@ != (#[trigger] entries[b]).0@,
    ensures
        entries_map(entries.update(i, (field, source))) == entries_map(entries).insert(
            field@,
            source,
        ),
    decreases entries.len(),
{
    let updated = entries.update(i, (field, source));
    if i == entries.len() - 1 {
        assert(updated.drop_last() =~= entries.drop_last());
        assert(entries_map(updated) =~= entries_map(entries).insert(field@, source));
    } else {
        assert(updated.drop_last() =~= entries.drop_last().update(i, (field, source)));
        lemma_entries_map_update(entries.drop_last(), i, field, source);
        assert(entries.last().0@ != field@);
        assert(entries_map(updated) =~= entries_map(entries).insert(field@, source));
    }
}

impl View for SourceMap {
    type V = Map<Seq<char>, ConfigSource>;

    closed spec fn view(&self) -> Map<Seq<char>, ConfigSource> {
        entries_map(self.entries@)
    }
}

impl SourceMap {
    #[verifier::type_invariant]
    spec fn well_formed(self) -> bool {
        forall|a: int, b: int|
            0 <= a < b < self.entries.len() ==> (#[trigger] self.entries@[a]).0@ != (
            #[trigger] self.entries@[b]).0@
    }

    /// An empty map.
    pub fn new() -> (r: Self)
        ensures
            r@ == Map::<Seq<char>, ConfigSource>::empty(),
    {
        SourceMap { entries: Vec::new() }
    }

    /// Where the setting `field` came from, if it is recorded.
    pub fn get(&self, field: &str) -> (r: Option<ConfigSource>)
        ensures
            self@.contains_key(field@) ==> r == Some(self@[field@]),
            !self@.contains_key(field@) ==> r is None,
    {
        proof {
            use_type_invariant(self);
        }
        let mut i: usize = 0;
        while i < self.entries.len()
            invariant
                i <= self.entries@.len(),
                forall|j: int| 0 <= j < i ==> (#[trigger] self.entries@[j]).0@ != field@,
                forall|a: int, b: int|
                    0 <= a < b < self.entries.len() ==> (#[trigger] self.entries@[a]).0@ != (
                    #[trigger] self.entries@[b]).0@,
            decreases self.entries@.len() - i,
        {
            let (name, source) = self.entries[i];
            if str_eq(name, field) {
                proof {
                    lemma_entries_map_lookup(self.entries@, i as int);
                }
                return Some(source);
            }
            i = i + 1;
        }
        proof {
            lemma_entries_map_absent(self.entries@, field@);
        }
        None
    }
}

proof fn lemma_entries_map_lookup(entries: Seq<(&'static str, ConfigSource)>, i: int)
    requires
        0 <= i < entries.len(),
        forall|a: int, b: int|
            0 <= a < b < entries.len() ==> (#[trigger] entries[a]).0@ != (#[trigger] entries[b]).0@,
    ensures
        entries_map(entries).contains_key(entries[i].0@),
        entries_map(entries)[entries[i].0@] == entries[i].1,
    decreases entries.len(),
{
    if i < entries.len() - 1 {
        lemma_entries_map_lookup(entries.drop_last(), i);
        assert(entries.last().0@ != entries[i].0@);
    }
}

proof fn lemma_entries_map_absent(entries: Seq<(&'static str, ConfigSource)>, k: Seq<char>)
    requires
        forall|j: int| 0 <= j < entries.len() ==> (#[trigger] entries[j]).0@ != k,
    ensures
        !entries_map(entries).contains_key(k),
    decreases entries.len(),
{
    if entries.len() > 0 {
        lemma_entries_map_absent(entries.drop_last(), k);
    }
}

/// Records that `field` came from `source`, replacing an earlier record.
pub fn set_source(sources: &mut SourceMap, field: &'static str, source: ConfigSource)
    ensures
        final(sources)@ == old(sources)@.insert(field@, source),
{
    proof {
        use_type_invariant(&*sources);
    }
    let mut entries: Vec<(&'static str, ConfigSource)> = Vec::new();
    std::mem::swap(&mut entries, &mut sources.entries);
    let ghost old_entries = entries@;
    assert(old(sources)@ == entries_map(old_entries));
    let mut i: usize = 0;
    while i < entries.len()
        invariant
            entries@ == old_entries,
            old(sources)@ == entries_map(old_entries),
            i <= entries@.len(),
            forall|a: int, b: int|
                0 <= a < b < old_entries.len() ==> (#[trigger] old_entries[a]).0@ != (
                #[trigger] old_entries[b]).0@,
            forall|j: int| 0 <= j < i ==> (#[trigger] entries@[j]).0@ != field@,
        decreases entries@.len() - i,
    {
        if str_eq(entries[i].0, field) {
            entries.set(i, (field, source));
            proof {
                lemma_entries_map_update(old_entries, i as int, field, source);
                assert forall|a: int, b: int| 0 <= a < b < entries.len() implies (
                #[trigger] entries@[a]).0@ != (#[trigger] entries@[b]).0@ by {
                    if a == i {
                        assert(entries@[a].0@ == old_entries[a].0@);
                    }
                    if b == i {
                        assert(entries@[b].0@ == old_entries[b].0@);
                    }
                }
            }
            assert(entries@ == old_entries.update(i as int, (field, source)));
            sources.entries = entries;
            assert(sources@ == entries_map(entries@));
            assert(entries_map(entries@) == entries_map(old_entries).insert(field@, source));
            assert(sources@ == old(sources)@.insert(field@, source));
            return;
        }
        i = i + 1;
    }
    entries.push((field, source));
    proof {
        assert(entries@.drop_last() =~= old_entries);
        assert forall|a: int, b: int| 0 <= a < b < entries.len() implies (
        #[trigger] entries@[a]).0@ != (#[trigger] entries@[b]).0@ by {
            if b == entries.len() - 1 {
                assert(entries@[a] == old_entries[a]);
            } else {
                assert(entries@[a] == old_entries[a]);
                assert(entries@[b] == old_entries[b]);
            }
        }
    }
    sources.entries = entries;
}

/// Every reported setting, recorded as coming from its default.
pub open spec fn default_source_map() -> Map<Seq<char>, ConfigSource> {
    Map::new(|k: Seq<char>| report_field_names().contains(k), |k: Seq<char>| ConfigSource::Default)
}

/// Every reported setting, recorded as coming from its default.
pub fn default_sources() -> (r: SourceMap)
    ensures
        r@ == default_source_map(),
        forall|k: Seq<char>| #[trigger] r@.contains_key(k) <==> report_field_names().contains(k),
        forall|k: Seq<char>| r@.contains_key(k) ==> r@[k] == ConfigSource::Default,
{
    let fields = report_fields();
    let mut sources = SourceMap::new();
    let mut i: usize = 0;
    while i < fields.len()
        invariant
            i <= fields@.len(),
            fields@.len() == report_field_names().len(),
            forall|j: int| 0 <= j < fields@.len() ==> (#[trigger] fields@[j])@ == report_field_names()[j],
            forall|k: Seq<char>| #[trigger] sources@.contains_key(k) <==> report_field_names().take(
                i as int,
            ).contains(k),
            forall|k: Seq<char>| sources@.contains_key(k) ==> sources@[k] == ConfigSource::Default,
        decreases fields@.len() - i,
    {
        set_source(&mut sources, fields[i], ConfigSource::Default);
        proof {
            let names = report_field_names();
            assert forall|k: Seq<char>| #[trigger] sources@.contains_key(k) <==> names.take(
                i + 1,
            ).contains(k) by {
                let shorter = names.take(i as int);
                if shorter.contains(k) {
                    let w = choose|w: int| 0 <= w < shorter.len() && #[trigger] shorter[w] == k;
                    assert(names.take(i + 1)[w] == k);
                }
                let longer = names.take(i + 1);
                if longer.contains(k) {
                    let w = choose|w: int| 0 <= w < longer.len() && #[trigger] longer[w] == k;
                    if w < i {
                        assert(names.take(i as int)[w] == k);
                    }
                }
                if k == names[i as int] {
                    assert(names.take(i + 1)[i as int] == k);
                }
            }
        }
        i = i + 1;
    }
    assert(report_field_names().take(fields@.len() as int) =~= report_field_names());
    assert(sources@ =~= default_source_map());
    sources
}


/// The models the names select, in order; the first name that selects no
/// model is refused.
pub open spec fn models_in(names: Seq<Seq<char>>) -> Result<Seq<MatrixModel>, Seq<char>>
    decreases names.len(),
{
    if names.len() == 0 {
        Ok(Seq::empty())
    } else {
        match models_in(names.drop_last()) {
            Err(bad) => Err(bad),
            Ok(models) => match matrix_model_named(names.last()) {
                Some(m) => Ok(models.push(m)),
                None => Err(names.last()),
            },
        }
    }
}

/// Reads a comma-separated list of matrix model names; the first name that
/// selects no model is refused.
pub fn parse_matrix_models(value: &str) -> (r: Result<Vec<MatrixModel>, ArgError>)
    ensures
        match models_in(csv_values(value@)) {
            Ok(models) => r is Ok && r->Ok_0@ == models,
            Err(bad) => r is Err && r->Err_0@ == ArgFault::InvalidMatrixModel(bad),
        },
{
    let values = split_csv_values(value);
    let ghost vals = csv_values(value@);
    let mut models: Vec<MatrixModel> = Vec::new();
    let mut i: usize = 0;
    while i < values.len()
        invariant
            i <= values@.len(),
            values@.len() == vals.len(),
            vals == csv_values(value@),
            forall|j: int| 0 <= j < values@.len() ==> (#[trigger] values@[j])@ == vals[j],
            models_in(vals.take(i as int)) == Ok::<Seq<MatrixModel>, Seq<char>>(models@),
        decreases values@.len() - i,
    {
        assert(vals.take(i + 1).drop_last() =~= vals.take(i as int));
        assert(vals.take(i + 1).last() == vals[i as int]);
        match parse_matrix_model(values[i].as_str()) {
            Ok(model) => {
                models.push(model);
            },
            Err(e) => {
                proof {
                    lemma_first_refusal_stays(vals, i as int);
                }
                return Err(e);
            },
        }
        i = i + 1;
    }
    assert(vals.take(i as int) =~= vals);
    Ok(models)
}

/// Once a prefix of the names is refused, the whole list is refused with the
/// same name.
pub proof fn lemma_first_refusal_stays(names: Seq<Seq<char>>, i: int)
    requires
        0 <= i < names.len(),
        models_in(names.take(i + 1)) is Err,
    ensures
        models_in(names) == models_in(names.take(i + 1)),
    decreases names.len() - i,
{
    if i + 1 == names.len() {
        assert(names.take(i + 1) =~= names);
    } else {
        assert(names.take(i + 2).drop_last() =~= names.take(i + 1));
        lemma_first_refusal_stays(names, i + 1);
    }
}


/// A configuration report: the file and, per setting, its value and source.
pub struct ConfigReport {
    pub path: String,
    pub entries: Vec<ConfigReportEntry>,
}

/// One reported setting.
pub struct ConfigReportEntry {
    pub name: &'static str,
    pub value: String,
    pub source: ConfigSource,
}

/// `s` padded with spaces on the right to at least `width` characters.
pub open spec fn pad_right(s: Seq<char>, width: nat) -> Seq<char> {
    if s.len() < width {
        s + Seq::new((width - s.len()) as nat, |i: int| ' ')
    } else {
        s
    }
}

/// The text of one reported setting: name in 34 columns, source in 8, value.
pub open spec fn report_entry_text(e: ConfigReportEntry) -> Seq<char> {
    "  "@ + pad_right(e.name@, 34) + " "@ + pad_right(config_source_text(e.source), 8) + " "@
        + e.value@
}

/// Appends `s` padded with spaces to `width` characters.
fn append_padded(out: &mut String, s: &str, width: usize)
    ensures
        final(out)@ == old(out)@ + pad_right(s@, width as nat),
{
    out.append(s);
    let n = chars_of(s).len();
    let mut k = n;
    while k < width
        invariant
            n == s@.len(),
            n <= k <= width || (n > width && k == n),
            out@ == old(out)@ + s@ + Seq::new((k - n) as nat, |i: int| ' '),
        decreases width - k,
    {
        push_char(out, ' ');
        k = k + 1;
        assert(out@ =~= old(out)@ + s@ + Seq::new((k - n) as nat, |i: int| ' '));
    }
    assert(out@ =~= old(out)@ + pad_right(s@, width as nat));
}

/// The lines of a configuration report, as printed: the file, a header, and
/// one line per setting.
pub fn config_report_lines(report: &ConfigReport) -> (r: Vec<String>)
    ensures
        r@.len() == report.entries@.len() + 2,
        r@[0]@ == "Loaded config: "@ + report.path@,
        r@[1]@ == "Parameter sources (CLI overrides config, config overrides defaults):"@,
        forall|i: int|
            0 <= i < report.entries@.len() ==> (#[trigger] r@[i + 2])@ == report_entry_text(
                report.entries@[i],
            ),
{
    let mut lines: Vec<String> = Vec::new();
    let mut first = string_of("Loaded config: ");
    first.append(report.path.as_str());
    lines.push(first);
    lines.push(string_of("Parameter sources (CLI overrides config, config overrides defaults):"));
    let mut i: usize = 0;
    while i < report.entries.len()
        invariant
            i <= report.entries@.len(),
            lines@.len() == i + 2,
            lines@[0]@ == "Loaded config: "@ + report.path@,
            lines@[1]@ == "Parameter sources (CLI overrides config, config overrides defaults):"@,
            forall|j: int|
                0 <= j < i ==> (#[trigger] lines@[j + 2])@ == report_entry_text(report.entries@[j]),
        decreases report.entries@.len() - i,
    {
        let entry = &report.entries[i];
        let mut line = string_of("  ");
        append_padded(&mut line, entry.name, 34);
        line.append(" ");
        append_padded(&mut line, entry.source.as_str(), 8);
        line.append(" ");
        line.append(entry.value.as_str());
        assert(line@ =~= report_entry_text(report.entries@[i as int]));
        lines.push(line);
        i = i + 1;
    }
    lines
}

/// The value, or `<none>`.
pub fn option_string(value: &Option<String>) -> (r: String)
    ensures
        value is Some ==> r@ == value->0@,
        value is None ==> r@ == "<none>"@,
{
    match value {
        Some(v) => v.clone(),
        None => string_of("<none>"),
    }
}

/// The values joined with `,`, or `[]` when there are none.
pub fn list_string(values: &[String]) -> (r: String)
    ensures
        values@.len() == 0 ==> r@ == "[]"@,
        values@.len() != 0 ==> r@ == join_with(values@.map_values(|v: String| v@), ","@),
{
    if values.len() == 0 {
        return string_of("[]");
    }
    let mut out = String::new();
    let mut i: usize = 0;
    while i < values.len()
        invariant
            i <= values@.len(),
            out@ == join_with(values@.take(i as int).map_values(|v: String| v@), ","@),
        decreases values@.len() - i,
    {
        if i > 0 {
            out.append(",");
        }
        out.append(values[i].as_str());
        proof {
            let parts = values@.take(i + 1).map_values(|v: String| v@);
            assert(parts.drop_last() =~= values@.take(i as int).map_values(|v: String| v@));
            assert(out@ =~= join_with(parts, ","@));
        }
        i = i + 1;
    }
    assert(values@.take(i as int) =~= values@);
    out
}

} // verus!
