//! The run settings of the research bench: their defaults, the settings a
//! command-line flag or a configuration field names, how a value is read for
//! each, and how it changes the settings.
//!
//! Settings that the bench holds as floating-point numbers (thresholds,
//! rates, penalties) and the names of image feature and resize modes are
//! kept here as the text they were given in; the runner reads them.
use vstd::prelude::*;

use crate::blocks::{normalize_block_mask, normalized};
use crate::cli::{
    inline_config_path, is_config_flag, misclassified_names, models_in, next_value,
    parse_debug_samples, parse_format, parse_matrix_models, set_source, skip_config_flag, views_of,
    ArgError, ArgFault, ConfigReport, ConfigSource, DebugSamples, MatrixModel, OutputFormat,
    SourceMap,
};
use crate::floats::{is_float_syntax, is_float_text};
use crate::numbers::{parse_unsigned, parse_unsigned_text, NumberFault};
use crate::text::{
    chars_after, chars_of, csv_values, has_prefix, split_csv_values, starts_with, str_eq,
    string_from_chars, string_of, trim, trim_chars,
};

verus! {

/// The correction rule a run selects. The ratio rule always comes with its
/// fixed guard (1e-9) and bound (100) on the correction factor.
#[derive(Debug, Clone, Copy, PartialEq, Eq, Structural)]
pub enum CorrectionChoice {
    DifferenceLeastSquares,
    DifferencePatentProportional,
    Ratio,
}

/// Names of the least-squares difference rule.
pub open spec fn least_squares_names(v: Seq<char>) -> bool {
    v == "difference-ls"@ || v == "difference_ls"@ || v == "least-squares"@ || v
        == "least_squares"@ || v == "difference-least-squares"@ || v
        == "difference_least_squares"@
}

/// Names of the patent-proportional difference rule.
pub open spec fn proportional_names(v: Seq<char>) -> bool {
    v == "patent-proportional"@ || v == "patent_proportional"@ || v
        == "difference-patent-proportional"@ || v == "difference_patent_proportional"@
}

/// The rule a name selects, if any.
pub open spec fn correction_named(v: Seq<char>) -> Option<CorrectionChoice> {
    if least_squares_names(v) {
        Some(CorrectionChoice::DifferenceLeastSquares)
    } else if proportional_names(v) {
        Some(CorrectionChoice::DifferencePatentProportional)
    } else if v == "ratio"@ {
        Some(CorrectionChoice::Ratio)
    } else {
        None
    }
}

/// Reads a correction rule name.
pub fn parse_correction_mode(value: &str) -> (r: Result<CorrectionChoice, ArgError>)
    ensures
        match correction_named(value@) {
            Some(c) => r == Ok::<CorrectionChoice, ArgError>(c),
            None => r is Err && r->Err_0@ == ArgFault::InvalidCorrectionMode(value@),
        },
{
    if str_eq(value, "difference-ls") || str_eq(value, "difference_ls") || str_eq(
        value,
        "least-squares",
    ) || str_eq(value, "least_squares") || str_eq(value, "difference-least-squares") || str_eq(
        value,
        "difference_least_squares",
    ) {
        Ok(CorrectionChoice::DifferenceLeastSquares)
    } else if str_eq(value, "patent-proportional") || str_eq(value, "patent_proportional")
        || str_eq(value, "difference-patent-proportional") || str_eq(
        value,
        "difference_patent_proportional",
    ) {
        Ok(CorrectionChoice::DifferencePatentProportional)
    } else if str_eq(value, "ratio") {
        Ok(CorrectionChoice::Ratio)
    } else {
        Err(ArgError::InvalidCorrectionMode(string_of(value)))
    }
}

pub open spec fn correction_text(mode: CorrectionChoice) -> Seq<char> {
    match mode {
        CorrectionChoice::DifferenceLeastSquares => "difference_least_squares"@,
        CorrectionChoice::DifferencePatentProportional => "difference_patent_proportional"@,
        CorrectionChoice::Ratio => "ratio"@,
    }
}

/// The name a report gives a correction rule.
pub fn correction_mode_name(mode: CorrectionChoice) -> (r: &'static str)
    ensures
        r@ == correction_text(mode),
{
    match mode {
        CorrectionChoice::DifferenceLeastSquares => "difference_least_squares",
        CorrectionChoice::DifferencePatentProportional => "difference_patent_proportional",
        CorrectionChoice::Ratio => "ratio",
    }
}

/// The rules the names select, in order; the first name that selects no
/// rule is refused.
pub open spec fn corrections_in(names: Seq<Seq<char>>) -> Result<Seq<CorrectionChoice>, Seq<char>>
    decreases names.len(),
{
    if names.len() == 0 {
        Ok(Seq::empty())
    } else {
        match corrections_in(names.drop_last()) {
            Err(bad) => Err(bad),
            Ok(modes) => match correction_named(names.last()) {
                Some(m) => Ok(modes.push(m)),
                None => Err(names.last()),
            },
        }
    }
}

proof fn lemma_corrections_refusal_stays(names: Seq<Seq<char>>, i: int)
    requires
        0 <= i < names.len(),
        corrections_in(names.take(i + 1)) is Err,
    ensures
        corrections_in(names) == corrections_in(names.take(i + 1)),
    decreases names.len() - i,
{
    if i + 1 == names.len() {
        assert(names.take(i + 1) =~= names);
    } else {
        assert(names.take(i + 2).drop_last() =~= names.take(i + 1));
        lemma_corrections_refusal_stays(names, i + 1);
    }
}

/// Reads a comma-separated list of correction rule names.
pub fn parse_correction_modes_list(value: &str) -> (r: Result<Vec<CorrectionChoice>, ArgError>)
    ensures
        match corrections_in(csv_values(value@)) {
            Ok(modes) => r is Ok && r->Ok_0@ == modes,
            Err(bad) => r is Err && r->Err_0@ == ArgFault::InvalidCorrectionMode(bad),
        },
{
    let values = split_csv_values(value);
    let ghost vals = csv_values(value@);
    let mut modes: Vec<CorrectionChoice> = Vec::new();
    let mut i: usize = 0;
    while i < values.len()
        invariant
            i <= values@.len(),
            values@.len() == vals.len(),
            vals == csv_values(value@),
            forall|j: int| 0 <= j < values@.len() ==> (#[trigger] values@[j])@ == vals[j],
            corrections_in(vals.take(i as int)) == Ok::<Seq<CorrectionChoice>, Seq<char>>(modes@),
        decreases values@.len() - i,
    {
        assert(vals.take(i + 1).drop_last() =~= vals.take(i as int));
        assert(vals.take(i + 1).last() == vals[i as int]);
        match parse_correction_mode(values[i].as_str()) {
            Ok(mode) => {
                modes.push(mode);
            },
            Err(e) => {
                proof {
                    lemma_corrections_refusal_stays(vals, i as int);
                }
                return Err(e);
            },
        }
        i = i + 1;
    }
    assert(vals.take(i as int) =~= vals);
    Ok(modes)
}

/// The numbers the texts write, in order, each at most `max`; the first text
/// that is no such number is refused with its fault.
pub open spec fn numbers_in(texts: Seq<Seq<char>>, max: nat) -> Result<
    Seq<nat>,
    (Seq<char>, NumberFault),
>
    decreases texts.len(),
{
    if texts.len() == 0 {
        Ok(Seq::empty())
    } else {
        match numbers_in(texts.drop_last(), max) {
            Err(bad) => Err(bad),
            Ok(ns) => match parse_unsigned(texts.last(), 10, max) {
                Ok(n) => Ok(ns.push(n)),
                Err(f) => Err((texts.last(), f)),
            },
        }
    }
}

proof fn lemma_numbers_refusal_stays(texts: Seq<Seq<char>>, max: nat, i: int)
    requires
        0 <= i < texts.len(),
        numbers_in(texts.take(i + 1), max) is Err,
    ensures
        numbers_in(texts, max) == numbers_in(texts.take(i + 1), max),
    decreases texts.len() - i,
{
    if i + 1 == texts.len() {
        assert(texts.take(i + 1) =~= texts);
    } else {
        assert(texts.take(i + 2).drop_last() =~= texts.take(i + 1));
        lemma_numbers_refusal_stays(texts, max, i + 1);
    }
}

pub open spec fn nats_of(v: Seq<u64>) -> Seq<nat> {
    v.map_values(|x: u64| x as nat)
}

/// Reads a comma-separated list of decimal numbers, each at most `max`.
pub fn parse_number_list(value: &str, max: u64) -> (r: Result<Vec<u64>, ArgError>)
    ensures
        match numbers_in(csv_values(value@), max as nat) {
            Ok(ns) => r is Ok && nats_of(r->Ok_0@) == ns,
            Err(bad) => r is Err && r->Err_0@ == ArgFault::InvalidNumber(bad.0, bad.1),
        },
{
    let values = split_csv_values(value);
    let ghost vals = csv_values(value@);
    let mut numbers: Vec<u64> = Vec::new();
    let mut i: usize = 0;
    assert(nats_of(numbers@) =~= Seq::<nat>::empty());
    assert(vals.take(0) =~= Seq::<Seq<char>>::empty());
    while i < values.len()
        invariant
            i <= values@.len(),
            values@.len() == vals.len(),
            vals == csv_values(value@),
            forall|j: int| 0 <= j < values@.len() ==> (#[trigger] values@[j])@ == vals[j],
            numbers_in(vals.take(i as int), max as nat) == Ok::<
                Seq<nat>,
                (Seq<char>, NumberFault),
            >(nats_of(numbers@)),
        decreases values@.len() - i,
    {
        assert(vals.take(i + 1).drop_last() =~= vals.take(i as int));
        assert(vals.take(i + 1).last() == vals[i as int]);
        match parse_unsigned_text(values[i].as_str(), 10, max) {
            Ok(n) => {
                let ghost before = numbers@;
                numbers.push(n);
                assert(nats_of(numbers@) =~= nats_of(before).push(n as nat));
            },
            Err(f) => {
                proof {
                    lemma_numbers_refusal_stays(vals, max as nat, i as int);
                }
                return Err(ArgError::InvalidNumber(values[i].clone(), f));
            },
        }
        i = i + 1;
    }
    assert(vals.take(i as int) =~= vals);
    Ok(numbers)
}

/// The active-block mask that `text` writes: surrounding white space is
/// ignored, `0x` or `0X` starts a hexadecimal mask, anything else is
/// decimal.
pub open spec fn active_blocks_value(text: Seq<char>) -> Result<nat, NumberFault> {
    let t = trim(text);
    if has_prefix(t, "0x"@) || has_prefix(t, "0X"@) {
        parse_unsigned(t.skip(2), 16, u32::MAX as nat)
    } else {
        parse_unsigned(t, 10, u32::MAX as nat)
    }
}

/// Reads an active-block mask and normalizes it (a mask naming no block
/// selects all of them).
pub fn parse_active_blocks(value: &str) -> (r: Result<u32, ArgError>)
    ensures
        match active_blocks_value(value@) {
            Ok(n) => r == Ok::<u32, ArgError>(normalized(n as u32)),
            Err(f) => r is Err && r->Err_0@ == ArgFault::InvalidNumber(value@, f),
        },
{
    let cs = chars_of(value);
    let trimmed = trim_chars(&cs);
    let t = string_from_chars(trimmed.as_slice());
    proof {
        reveal_strlit("0x");
        reveal_strlit("0X");
    }
    let hex = trimmed.len() >= 2 && trimmed[0] == '0' && (trimmed[1] == 'x' || trimmed[1] == 'X');
    proof {
        if hex {
            assert(has_prefix(t@, "0x"@) || has_prefix(t@, "0X"@)) by {
                if trimmed[1] == 'x' {
                    assert(t@.take(2) =~= "0x"@);
                } else {
                    assert(t@.take(2) =~= "0X"@);
                }
            }
        } else {
            if has_prefix(t@, "0x"@) {
                assert(t@.take(2)[0] == t@[0] && t@.take(2)[1] == t@[1]);
            }
            if has_prefix(t@, "0X"@) {
                assert(t@.take(2)[0] == t@[0] && t@.take(2)[1] == t@[1]);
            }
        }
    }
    let parsed = if hex {
        let digits = string_from_chars(&slice_after(trimmed.as_slice(), 2));
        assert(digits@ =~= t@.skip(2));
        parse_unsigned_text(digits.as_str(), 16, 0xffff_ffff)
    } else {
        parse_unsigned_text(t.as_str(), 10, 0xffff_ffff)
    };
    match parsed {
        Ok(n) => Ok(normalize_block_mask(n as u32)),
        Err(f) => Err(ArgError::InvalidNumber(string_of(value), f)),
    }
}

fn slice_after(cs: &[char], n: usize) -> (r: Vec<char>)
    requires
        n <= cs@.len(),
    ensures
        r@ == cs@.skip(n as int),
{
    let mut out: Vec<char> = Vec::new();
    let mut i = n;
    while i < cs.len()
        invariant
            n <= i <= cs@.len(),
            out@ == cs@.subrange(n as int, i as int),
        decreases cs@.len() - i,
    {
        out.push(cs[i]);
        i = i + 1;
        assert(out@ =~= cs@.subrange(n as int, i as int));
    }
    assert(out@ =~= cs@.skip(n as int));
    out
}

/// A setting that a flag or a configuration field names.
#[derive(Debug, Clone, Copy, PartialEq, Eq, Structural)]
pub enum SettingKind {
    Format,
    DataPath,
    EvalDataPath,
    DatasetConfigPath,
    OutPath,
    ReportOutPath,
    ModelPath,
    ImagePath,
    SearchArtifactPath,
    Epochs,
    Intervals,
    Correction,
    Seed,
    ImageSize,
    ImageWidth,
    ImageHeight,
    ImageFeatures,
    ImageResize,
    SamplesPerClass,
    TopK,
    PancThreshold,
    PancJaccardWeight,
    PancActiveBlocks,
    TargetMse,
    MatrixModels,
    MatrixFeatures,
    MatrixImageSizes,
    MatrixIntervals,
    MatrixSeeds,
    MatrixResizeModes,
    MatrixCorrectionModes,
    MatrixTop,
    DebugOut,
    DebugTrainData,
    DebugLimit,
    DebugSamples,
    DebugNeighbors,
    PatchSize,
    PatchStride,
    MaxTrainPatches,
    AnomalyThresholdQuantile,
    Population,
    Generations,
    EliteCount,
    MutationRate,
    ValidationRatio,
    Threads,
    EvolveFeatures,
    EvolveImageSizes,
    EvolveResizeModes,
    EvolveTopK,
    MemoryPenalty,
    InferencePenalty,
}

/// How the text of a setting's value is read.
pub enum ValueClass {
    /// An output format name.
    Format,
    /// The text itself.
    Text,
    /// One decimal number.
    Number,
    /// An active-block mask.
    Blocks,
    /// A correction rule name.
    Correction,
    /// A debug sample selection.
    Samples,
    /// Comma-separated matrix model names.
    Models,
    /// Comma-separated correction rule names.
    Corrections,
    /// Comma-separated names, kept as text.
    Names,
    /// A floating-point number, kept as text.
    FloatText,
    /// An image feature mode name.
    FeatureName,
    /// An image resize mode name.
    ResizeName,
    /// Comma-separated image feature mode names.
    FeatureNames,
    /// Comma-separated image resize mode names.
    ResizeNames,
    /// Comma-separated decimal numbers.
    Numbers,
}

pub open spec fn value_class(kind: SettingKind) -> ValueClass {
    match kind {
        SettingKind::Format => ValueClass::Format,
        SettingKind::DataPath | SettingKind::EvalDataPath | SettingKind::DatasetConfigPath
        | SettingKind::OutPath | SettingKind::ReportOutPath | SettingKind::ModelPath
        | SettingKind::ImagePath | SettingKind::SearchArtifactPath | SettingKind::DebugOut
        | SettingKind::DebugTrainData => ValueClass::Text,
        SettingKind::PancThreshold | SettingKind::PancJaccardWeight | SettingKind::TargetMse
        | SettingKind::AnomalyThresholdQuantile | SettingKind::MutationRate
        | SettingKind::ValidationRatio | SettingKind::MemoryPenalty
        | SettingKind::InferencePenalty => ValueClass::FloatText,
        SettingKind::ImageFeatures => ValueClass::FeatureName,
        SettingKind::ImageResize => ValueClass::ResizeName,
        SettingKind::Epochs | SettingKind::Intervals | SettingKind::Seed | SettingKind::ImageSize
        | SettingKind::ImageWidth | SettingKind::ImageHeight | SettingKind::SamplesPerClass
        | SettingKind::TopK | SettingKind::MatrixTop | SettingKind::DebugLimit
        | SettingKind::DebugNeighbors | SettingKind::PatchSize | SettingKind::PatchStride
        | SettingKind::MaxTrainPatches | SettingKind::Population | SettingKind::Generations
        | SettingKind::EliteCount | SettingKind::Threads => ValueClass::Number,
        SettingKind::PancActiveBlocks => ValueClass::Blocks,
        SettingKind::Correction => ValueClass::Correction,
        SettingKind::DebugSamples => ValueClass::Samples,
        SettingKind::MatrixModels => ValueClass::Models,
        SettingKind::MatrixCorrectionModes => ValueClass::Corrections,
        SettingKind::MatrixFeatures | SettingKind::EvolveFeatures => ValueClass::FeatureNames,
        SettingKind::MatrixResizeModes | SettingKind::EvolveResizeModes => ValueClass::ResizeNames,
        SettingKind::MatrixImageSizes | SettingKind::MatrixIntervals | SettingKind::MatrixSeeds
        | SettingKind::EvolveImageSizes | SettingKind::EvolveTopK => ValueClass::Numbers,
    }
}

/// The largest number a numeric setting holds: its integer type's maximum.
pub open spec fn kind_max(kind: SettingKind) -> nat {
    match kind {
        SettingKind::Seed | SettingKind::MatrixSeeds => u64::MAX as nat,
        SettingKind::ImageSize | SettingKind::ImageWidth | SettingKind::ImageHeight
        | SettingKind::PatchSize | SettingKind::PatchStride | SettingKind::PancActiveBlocks
        | SettingKind::MatrixImageSizes | SettingKind::EvolveImageSizes => u32::MAX as nat,
        _ => usize::MAX as nat,
    }
}

fn kind_max_exec(kind: SettingKind) -> (r: u64)
    ensures
        r as nat == kind_max(kind),
{
    match kind {
        SettingKind::Seed | SettingKind::MatrixSeeds => u64::MAX,
        SettingKind::ImageSize | SettingKind::ImageWidth | SettingKind::ImageHeight
        | SettingKind::PatchSize | SettingKind::PatchStride | SettingKind::PancActiveBlocks
        | SettingKind::MatrixImageSizes | SettingKind::EvolveImageSizes => 0xffff_ffff,
        _ => usize::MAX as u64,
    }
}

/// A value read for a setting.
pub enum Setting {
    Format(OutputFormat),
    Text(String),
    Names(Vec<String>),
    Number(u64),
    Numbers(Vec<u64>),
    Correction(CorrectionChoice),
    Corrections(Vec<CorrectionChoice>),
    Models(Vec<MatrixModel>),
    Samples(DebugSamples),
}

/// A value read for a setting, by its text and numbers.
pub enum SettingValue {
    Format(OutputFormat),
    Text(Seq<char>),
    Names(Seq<Seq<char>>),
    Number(nat),
    Numbers(Seq<nat>),
    Correction(CorrectionChoice),
    Corrections(Seq<CorrectionChoice>),
    Models(Seq<MatrixModel>),
    Samples(DebugSamples),
}

pub open spec fn texts_of(v: Seq<String>) -> Seq<Seq<char>> {
    v.map_values(|s: String| s@)
}

impl View for Setting {
    type V = SettingValue;

    open spec fn view(&self) -> SettingValue {
        match self {
            Setting::Format(f) => SettingValue::Format(*f),
            Setting::Text(t) => SettingValue::Text(t@),
            Setting::Names(ns) => SettingValue::Names(texts_of(ns@)),
            Setting::Number(n) => SettingValue::Number(*n as nat),
            Setting::Numbers(ns) => SettingValue::Numbers(nats_of(ns@)),
            Setting::Correction(c) => SettingValue::Correction(*c),
            Setting::Corrections(cs) => SettingValue::Corrections(cs@),
            Setting::Models(ms) => SettingValue::Models(ms@),
            Setting::Samples(s) => SettingValue::Samples(*s),
        }
    }
}

/// The output format a name selects.
pub open spec fn format_named(v: Seq<char>) -> Option<OutputFormat> {
    if v == "json"@ {
        Some(OutputFormat::Json)
    } else if v == "csv"@ {
        Some(OutputFormat::Csv)
    } else {
        None
    }
}

/// The debug sample selection a name selects.
pub open spec fn samples_named(v: Seq<char>) -> Option<DebugSamples> {
    if misclassified_names(v) {
        Some(DebugSamples::Misclassified)
    } else if v == "all"@ {
        Some(DebugSamples::All)
    } else if v == "correct"@ {
        Some(DebugSamples::Correct)
    } else {
        None
    }
}

/// The value that `text` gives the setting `kind`, or why it is refused.
/// The image feature mode names (`resize` false) or image resize mode
/// names (`resize` true) the bench accepts, as its usage text lists them.
pub open spec fn is_mode_name(name: Seq<char>, resize: bool) -> bool {
    if resize {
        name == "stretch"@ || name == "center-crop"@ || name == "letterbox"@ || name
            == "foreground-crop"@
    } else {
        name == "pixels"@ || name == "color"@ || name == "hog"@ || name == "combined"@ || name
            == "rich"@ || name == "rich-spatial"@ || name == "rich-normalized"@ || name
            == "rich-hog"@ || name == "rich-texture"@ || name == "rich-edge"@ || name
            == "rich-layout"@
    }
}

/// The first name of the list that is no mode name, if any.
pub open spec fn first_unknown_mode(names: Seq<Seq<char>>, resize: bool) -> Option<Seq<char>>
    decreases names.len(),
{
    if names.len() == 0 {
        None
    } else if first_unknown_mode(names.drop_last(), resize) is Some {
        first_unknown_mode(names.drop_last(), resize)
    } else if !is_mode_name(names.last(), resize) {
        Some(names.last())
    } else {
        None
    }
}

fn mode_name_ok(name: &str, resize: bool) -> (r: bool)
    ensures
        r == is_mode_name(name@, resize),
{
    if resize {
        str_eq(name, "stretch") || str_eq(name, "center-crop") || str_eq(name, "letterbox")
            || str_eq(name, "foreground-crop")
    } else {
        str_eq(name, "pixels") || str_eq(name, "color") || str_eq(name, "hog") || str_eq(
            name,
            "combined",
        ) || str_eq(name, "rich") || str_eq(name, "rich-spatial") || str_eq(
            name,
            "rich-normalized",
        ) || str_eq(name, "rich-hog") || str_eq(name, "rich-texture") || str_eq(
            name,
            "rich-edge",
        ) || str_eq(name, "rich-layout")
    }
}

fn first_unknown_mode_in(names: &Vec<String>, resize: bool) -> (r: Option<String>)
    ensures
        match first_unknown_mode(texts_of(names@), resize) {
            Some(bad) => r is Some && r->0@ == bad,
            None => r is None,
        },
{
    let mut i: usize = 0;
    while i < names.len()
        invariant
            i <= names@.len(),
            first_unknown_mode(texts_of(names@).take(i as int), resize) is None,
        decreases names@.len() - i,
    {
        assert(texts_of(names@).take(i + 1).drop_last() =~= texts_of(names@).take(i as int));
        if !mode_name_ok(names[i].as_str(), resize) {
            proof {
                lemma_first_unknown_extends(texts_of(names@), resize, i + 1);
            }
            return Some(names[i].clone());
        }
        i = i + 1;
    }
    assert(texts_of(names@).take(i as int) =~= texts_of(names@));
    None
}

proof fn lemma_first_unknown_extends(names: Seq<Seq<char>>, resize: bool, n: int)
    requires
        0 <= n <= names.len(),
        first_unknown_mode(names.take(n), resize) is Some,
    ensures
        first_unknown_mode(names, resize) == first_unknown_mode(names.take(n), resize),
    decreases names.len() - n,
{
    if n < names.len() {
        assert(names.take(n + 1).drop_last() =~= names.take(n));
        lemma_first_unknown_extends(names, resize, n + 1);
    } else {
        assert(names.take(n) =~= names);
    }
}

pub open spec fn read_setting(kind: SettingKind, text: Seq<char>) -> Result<SettingValue, ArgFault> {
    match value_class(kind) {
        ValueClass::Format => match format_named(text) {
            Some(f) => Ok(SettingValue::Format(f)),
            None => Err(ArgFault::InvalidFormat(text)),
        },
        ValueClass::Text => Ok(SettingValue::Text(text)),
        ValueClass::FloatText => if is_float_text(text) {
            Ok(SettingValue::Text(text))
        } else {
            Err(ArgFault::InvalidFloat(text))
        },
        ValueClass::Number => match parse_unsigned(text, 10, kind_max(kind)) {
            Ok(n) => Ok(SettingValue::Number(n)),
            Err(f) => Err(ArgFault::InvalidNumber(text, f)),
        },
        ValueClass::Blocks => match active_blocks_value(text) {
            Ok(n) => Ok(SettingValue::Number(normalized(n as u32) as nat)),
            Err(f) => Err(ArgFault::InvalidNumber(text, f)),
        },
        ValueClass::Correction => match correction_named(text) {
            Some(c) => Ok(SettingValue::Correction(c)),
            None => Err(ArgFault::InvalidCorrectionMode(text)),
        },
        ValueClass::Samples => match samples_named(text) {
            Some(d) => Ok(SettingValue::Samples(d)),
            None => Err(ArgFault::InvalidDebugSamples(text)),
        },
        ValueClass::Models => match models_in(csv_values(text)) {
            Ok(ms) => Ok(SettingValue::Models(ms)),
            Err(bad) => Err(ArgFault::InvalidMatrixModel(bad)),
        },
        ValueClass::Corrections => match corrections_in(csv_values(text)) {
            Ok(cs) => Ok(SettingValue::Corrections(cs)),
            Err(bad) => Err(ArgFault::InvalidCorrectionMode(bad)),
        },
        ValueClass::Names => Ok(SettingValue::Names(csv_values(text))),
        ValueClass::FeatureName => if is_mode_name(text, false) {
            Ok(SettingValue::Text(text))
        } else {
            Err(ArgFault::InvalidImageFeatures(text))
        },
        ValueClass::ResizeName => if is_mode_name(text, true) {
            Ok(SettingValue::Text(text))
        } else {
            Err(ArgFault::InvalidImageResize(text))
        },
        ValueClass::FeatureNames => match first_unknown_mode(csv_values(text), false) {
            Some(bad) => Err(ArgFault::InvalidImageFeatures(bad)),
            None => Ok(SettingValue::Names(csv_values(text))),
        },
        ValueClass::ResizeNames => match first_unknown_mode(csv_values(text), true) {
            Some(bad) => Err(ArgFault::InvalidImageResize(bad)),
            None => Ok(SettingValue::Names(csv_values(text))),
        },
        ValueClass::Numbers => match numbers_in(csv_values(text), kind_max(kind)) {
            Ok(ns) => Ok(SettingValue::Numbers(ns)),
            Err(bad) => Err(ArgFault::InvalidNumber(bad.0, bad.1)),
        },
    }
}

/// The value has the shape of the setting, and its numbers fit it.
pub open spec fn fits(kind: SettingKind, v: SettingValue) -> bool {
    match value_class(kind) {
        ValueClass::Format => v is Format,
        ValueClass::Text => v is Text,
        ValueClass::Number => v matches SettingValue::Number(n) && n <= kind_max(kind),
        ValueClass::Blocks => v matches SettingValue::Number(n) && n <= u32::MAX,
        ValueClass::Correction => v is Correction,
        ValueClass::Samples => v is Samples,
        ValueClass::Models => v is Models,
        ValueClass::Corrections => v is Corrections,
        ValueClass::Names | ValueClass::FeatureNames | ValueClass::ResizeNames => v is Names,
        ValueClass::FeatureName | ValueClass::ResizeName | ValueClass::FloatText => v is Text,
        ValueClass::Numbers => v matches SettingValue::Numbers(ns) && forall|i: int|
            0 <= i < ns.len() ==> #[trigger] ns[i] <= kind_max(kind),
    }
}

proof fn lemma_numbers_within(texts: Seq<Seq<char>>, max: nat)
    ensures
        numbers_in(texts, max) matches Ok(ns) ==> ns.len() == texts.len() && forall|i: int|
            0 <= i < ns.len() ==> #[trigger] ns[i] <= max,
    decreases texts.len(),
{
    if texts.len() > 0 {
        lemma_numbers_within(texts.drop_last(), max);
        let last = texts.last();
        if last.len() > 0 && last[0] == '+' {
            crate::numbers::lemma_scan_within(last.drop_first(), 10, max, 0);
        }
        crate::numbers::lemma_scan_within(last, 10, max, 0);
    }
}

/// A value that is read fits its setting.
pub proof fn lemma_read_fits(kind: SettingKind, text: Seq<char>)
    ensures
        read_setting(kind, text) matches Ok(v) ==> fits(kind, v),
{
    if text.len() > 0 && text[0] == '+' {
        crate::numbers::lemma_scan_within(text.drop_first(), 10, kind_max(kind), 0);
    }
    crate::numbers::lemma_scan_within(text, 10, kind_max(kind), 0);
    lemma_numbers_within(csv_values(text), kind_max(kind));
}

/// Reads the value `text` gives the setting `kind`.
pub fn read_setting_value(kind: SettingKind, text: &str) -> (r: Result<Setting, ArgError>)
    ensures
        match read_setting(kind, text@) {
            Ok(v) => r is Ok && r->Ok_0@ == v,
            Err(f) => r is Err && r->Err_0@ == f,
        },
{
    proof {
        reveal_strlit("json");
        reveal_strlit("csv");
    }
    match kind {
        SettingKind::Format => match parse_format(text) {
            Ok(f) => Ok(Setting::Format(f)),
            Err(e) => Err(e),
        },
        SettingKind::DataPath | SettingKind::EvalDataPath | SettingKind::DatasetConfigPath
        | SettingKind::OutPath | SettingKind::ReportOutPath | SettingKind::ModelPath
        | SettingKind::ImagePath | SettingKind::SearchArtifactPath | SettingKind::DebugOut
        | SettingKind::DebugTrainData => Ok(Setting::Text(string_of(text))),
        SettingKind::PancThreshold | SettingKind::PancJaccardWeight | SettingKind::TargetMse
        | SettingKind::AnomalyThresholdQuantile | SettingKind::MutationRate
        | SettingKind::ValidationRatio | SettingKind::MemoryPenalty
        | SettingKind::InferencePenalty => if is_float_syntax(text) {
            Ok(Setting::Text(string_of(text)))
        } else {
            Err(ArgError::InvalidFloat(string_of(text)))
        },
        SettingKind::ImageFeatures | SettingKind::ImageResize => {
            let resize = match kind {
                SettingKind::ImageResize => true,
                _ => false,
            };
            if mode_name_ok(text, resize) {
                Ok(Setting::Text(string_of(text)))
            } else if resize {
                Err(ArgError::InvalidImageResize(string_of(text)))
            } else {
                Err(ArgError::InvalidImageFeatures(string_of(text)))
            }
        },
        SettingKind::PancActiveBlocks => match parse_active_blocks(text) {
            Ok(m) => Ok(Setting::Number(m as u64)),
            Err(e) => Err(e),
        },
        SettingKind::Correction => match parse_correction_mode(text) {
            Ok(c) => Ok(Setting::Correction(c)),
            Err(e) => Err(e),
        },
        SettingKind::DebugSamples => match parse_debug_samples(text) {
            Ok(d) => Ok(Setting::Samples(d)),
            Err(e) => Err(e),
        },
        SettingKind::MatrixModels => match parse_matrix_models(text) {
            Ok(ms) => Ok(Setting::Models(ms)),
            Err(e) => Err(e),
        },
        SettingKind::MatrixCorrectionModes => match parse_correction_modes_list(text) {
            Ok(cs) => Ok(Setting::Corrections(cs)),
            Err(e) => Err(e),
        },
        SettingKind::MatrixFeatures | SettingKind::MatrixResizeModes | SettingKind::EvolveFeatures
        | SettingKind::EvolveResizeModes => {
            let resize = match kind {
                SettingKind::MatrixResizeModes | SettingKind::EvolveResizeModes => true,
                _ => false,
            };
            let names = split_csv_values(text);
            assert(texts_of(names@) =~= csv_values(text@));
            match first_unknown_mode_in(&names, resize) {
                Some(bad) => if resize {
                    Err(ArgError::InvalidImageResize(bad))
                } else {
                    Err(ArgError::InvalidImageFeatures(bad))
                },
                None => Ok(Setting::Names(names)),
            }
        },
        SettingKind::MatrixImageSizes | SettingKind::MatrixIntervals | SettingKind::MatrixSeeds
        | SettingKind::EvolveImageSizes | SettingKind::EvolveTopK => {
            match parse_number_list(text, kind_max_exec(kind)) {
                Ok(ns) => Ok(Setting::Numbers(ns)),
                Err(e) => Err(e),
            }
        },
        _ => match parse_unsigned_text(text, 10, kind_max_exec(kind)) {
            Ok(n) => Ok(Setting::Number(n)),
            Err(f) => Err(ArgError::InvalidNumber(string_of(text), f)),
        },
    }
}


/// The settings of one run.
pub struct Args {
    pub command: String,
    pub format: OutputFormat,
    pub data_path: Option<String>,
    pub eval_data_path: Option<String>,
    pub dataset_config_path: Option<String>,
    pub out_path: Option<String>,
    pub report_out_path: Option<String>,
    pub model_path: Option<String>,
    pub image_path: Option<String>,
    pub search_artifact_path: Option<String>,
    pub epochs: usize,
    pub intervals: usize,
    pub correction_mode: CorrectionChoice,
    pub seed: u64,
    pub image_width: u32,
    pub image_height: u32,
    pub image_features: String,
    pub image_resize: String,
    pub samples_per_class: usize,
    pub top_k: usize,
    pub panc_threshold: Option<String>,
    pub panc_jaccard_weight: Option<String>,
    pub panc_active_blocks: Option<u32>,
    pub target_mse: Option<String>,
    pub matrix_models: Vec<MatrixModel>,
    pub matrix_features: Vec<String>,
    pub matrix_image_sizes: Vec<u32>,
    pub matrix_intervals: Vec<usize>,
    pub matrix_seeds: Vec<u64>,
    pub matrix_resize_modes: Vec<String>,
    pub matrix_correction_modes: Vec<CorrectionChoice>,
    pub matrix_top: usize,
    pub debug_out_path: Option<String>,
    pub debug_train_data_path: Option<String>,
    pub debug_limit: usize,
    pub debug_samples: DebugSamples,
    pub debug_neighbors: usize,
    pub patch_size: u32,
    pub patch_stride: u32,
    pub max_train_patches: usize,
    pub anomaly_threshold_quantile: String,
    pub evolution_population: usize,
    pub evolution_generations: usize,
    pub evolution_elite_count: usize,
    pub evolution_mutation_rate: String,
    pub evolution_validation_ratio: String,
    pub evolution_threads: usize,
    pub evolution_feature_modes: Vec<String>,
    pub evolution_image_sizes: Vec<u32>,
    pub evolution_resize_modes: Vec<String>,
    pub evolution_top_k_values: Vec<usize>,
    pub evolution_memory_penalty_per_mb: String,
    pub evolution_inference_penalty_per_ms: String,
    pub config_report: Option<ConfigReport>,
}

/// The settings of one run, by their text and numbers.
pub struct ArgsModel {
    pub command: Seq<char>,
    pub format: OutputFormat,
    pub data_path: Option<Seq<char>>,
    pub eval_data_path: Option<Seq<char>>,
    pub dataset_config_path: Option<Seq<char>>,
    pub out_path: Option<Seq<char>>,
    pub report_out_path: Option<Seq<char>>,
    pub model_path: Option<Seq<char>>,
    pub image_path: Option<Seq<char>>,
    pub search_artifact_path: Option<Seq<char>>,
    pub epochs: nat,
    pub intervals: nat,
    pub correction_mode: CorrectionChoice,
    pub seed: nat,
    pub image_width: nat,
    pub image_height: nat,
    pub image_features: Seq<char>,
    pub image_resize: Seq<char>,
    pub samples_per_class: nat,
    pub top_k: nat,
    pub panc_threshold: Option<Seq<char>>,
    pub panc_jaccard_weight: Option<Seq<char>>,
    pub panc_active_blocks: Option<nat>,
    pub target_mse: Option<Seq<char>>,
    pub matrix_models: Seq<MatrixModel>,
    pub matrix_features: Seq<Seq<char>>,
    pub matrix_image_sizes: Seq<nat>,
    pub matrix_intervals: Seq<nat>,
    pub matrix_seeds: Seq<nat>,
    pub matrix_resize_modes: Seq<Seq<char>>,
    pub matrix_correction_modes: Seq<CorrectionChoice>,
    pub matrix_top: nat,
    pub debug_out_path: Option<Seq<char>>,
    pub debug_train_data_path: Option<Seq<char>>,
    pub debug_limit: nat,
    pub debug_samples: DebugSamples,
    pub debug_neighbors: nat,
    pub patch_size: nat,
    pub patch_stride: nat,
    pub max_train_patches: nat,
    pub anomaly_threshold_quantile: Seq<char>,
    pub evolution_population: nat,
    pub evolution_generations: nat,
    pub evolution_elite_count: nat,
    pub evolution_mutation_rate: Seq<char>,
    pub evolution_validation_ratio: Seq<char>,
    pub evolution_threads: nat,
    pub evolution_feature_modes: Seq<Seq<char>>,
    pub evolution_image_sizes: Seq<nat>,
    pub evolution_resize_modes: Seq<Seq<char>>,
    pub evolution_top_k_values: Seq<nat>,
    pub evolution_memory_penalty_per_mb: Seq<char>,
    pub evolution_inference_penalty_per_ms: Seq<char>,
    pub config_report: Option<ConfigReport>,
}

pub open spec fn opt_text(o: Option<String>) -> Option<Seq<char>> {
    match o {
        Some(s) => Some(s@),
        None => None,
    }
}

pub open spec fn nats_u32(v: Seq<u32>) -> Seq<nat> {
    v.map_values(|x: u32| x as nat)
}

pub open spec fn nats_usize(v: Seq<usize>) -> Seq<nat> {
    v.map_values(|x: usize| x as nat)
}

impl View for Args {
    type V = ArgsModel;

    open spec fn view(&self) -> ArgsModel {
        ArgsModel {
            command: self.command@,
            format: self.format,
            data_path: opt_text(self.data_path),
            eval_data_path: opt_text(self.eval_data_path),
            dataset_config_path: opt_text(self.dataset_config_path),
            out_path: opt_text(self.out_path),
            report_out_path: opt_text(self.report_out_path),
            model_path: opt_text(self.model_path),
            image_path: opt_text(self.image_path),
            search_artifact_path: opt_text(self.search_artifact_path),
            epochs: self.epochs as nat,
            intervals: self.intervals as nat,
            correction_mode: self.correction_mode,
            seed: self.seed as nat,
            image_width: self.image_width as nat,
            image_height: self.image_height as nat,
            image_features: self.image_features@,
            image_resize: self.image_resize@,
            samples_per_class: self.samples_per_class as nat,
            top_k: self.top_k as nat,
            panc_threshold: opt_text(self.panc_threshold),
            panc_jaccard_weight: opt_text(self.panc_jaccard_weight),
            panc_active_blocks: match self.panc_active_blocks {
                Some(b) => Some(b as nat),
                None => None,
            },
            target_mse: opt_text(self.target_mse),
            matrix_models: self.matrix_models@,
            matrix_features: texts_of(self.matrix_features@),
            matrix_image_sizes: nats_u32(self.matrix_image_sizes@),
            matrix_intervals: nats_usize(self.matrix_intervals@),
            matrix_seeds: nats_of(self.matrix_seeds@),
            matrix_resize_modes: texts_of(self.matrix_resize_modes@),
            matrix_correction_modes: self.matrix_correction_modes@,
            matrix_top: self.matrix_top as nat,
            debug_out_path: opt_text(self.debug_out_path),
            debug_train_data_path: opt_text(self.debug_train_data_path),
            debug_limit: self.debug_limit as nat,
            debug_samples: self.debug_samples,
            debug_neighbors: self.debug_neighbors as nat,
            patch_size: self.patch_size as nat,
            patch_stride: self.patch_stride as nat,
            max_train_patches: self.max_train_patches as nat,
            anomaly_threshold_quantile: self.anomaly_threshold_quantile@,
            evolution_population: self.evolution_population as nat,
            evolution_generations: self.evolution_generations as nat,
            evolution_elite_count: self.evolution_elite_count as nat,
            evolution_mutation_rate: self.evolution_mutation_rate@,
            evolution_validation_ratio: self.evolution_validation_ratio@,
            evolution_threads: self.evolution_threads as nat,
            evolution_feature_modes: texts_of(self.evolution_feature_modes@),
            evolution_image_sizes: nats_u32(self.evolution_image_sizes@),
            evolution_resize_modes: texts_of(self.evolution_resize_modes@),
            evolution_top_k_values: nats_usize(self.evolution_top_k_values@),
            evolution_memory_penalty_per_mb: self.evolution_memory_penalty_per_mb@,
            evolution_inference_penalty_per_ms: self.evolution_inference_penalty_per_ms@,
            config_report: self.config_report,
        }
    }
}

pub open spec fn text_of(v: SettingValue) -> Seq<char> {
    match v {
        SettingValue::Text(t) => t,
        _ => Seq::empty(),
    }
}

pub open spec fn names_of(v: SettingValue) -> Seq<Seq<char>> {
    match v {
        SettingValue::Names(ns) => ns,
        _ => Seq::empty(),
    }
}

pub open spec fn number_of(v: SettingValue) -> nat {
    match v {
        SettingValue::Number(n) => n,
        _ => 0,
    }
}

pub open spec fn numbers_of(v: SettingValue) -> Seq<nat> {
    match v {
        SettingValue::Numbers(ns) => ns,
        _ => Seq::empty(),
    }
}

/// The settings after `kind` takes the value `v`; every other setting stays.
pub open spec fn assign(m: ArgsModel, kind: SettingKind, v: SettingValue) -> ArgsModel {
    match kind {
        SettingKind::Format => match v {
            SettingValue::Format(f) => ArgsModel { format: f, ..m },
            _ => m,
        },
        SettingKind::DataPath => ArgsModel { data_path: Some(text_of(v)), ..m },
        SettingKind::EvalDataPath => ArgsModel { eval_data_path: Some(text_of(v)), ..m },
        SettingKind::DatasetConfigPath => ArgsModel { dataset_config_path: Some(text_of(v)), ..m },
        SettingKind::OutPath => ArgsModel { out_path: Some(text_of(v)), ..m },
        SettingKind::ReportOutPath => ArgsModel { report_out_path: Some(text_of(v)), ..m },
        SettingKind::ModelPath => ArgsModel { model_path: Some(text_of(v)), ..m },
        SettingKind::ImagePath => ArgsModel { image_path: Some(text_of(v)), ..m },
        SettingKind::SearchArtifactPath => ArgsModel {
            search_artifact_path: Some(text_of(v)),
            ..m
        },
        SettingKind::Epochs => ArgsModel { epochs: number_of(v), ..m },
        SettingKind::Intervals => ArgsModel { intervals: number_of(v), ..m },
        SettingKind::Correction => match v {
            SettingValue::Correction(c) => ArgsModel { correction_mode: c, ..m },
            _ => m,
        },
        SettingKind::Seed => ArgsModel { seed: number_of(v), ..m },
        SettingKind::ImageSize => ArgsModel {
            image_width: number_of(v),
            image_height: number_of(v),
            ..m
        },
        SettingKind::ImageWidth => ArgsModel { image_width: number_of(v), ..m },
        SettingKind::ImageHeight => ArgsModel { image_height: number_of(v), ..m },
        SettingKind::ImageFeatures => ArgsModel { image_features: text_of(v), ..m },
        SettingKind::ImageResize => ArgsModel { image_resize: text_of(v), ..m },
        SettingKind::SamplesPerClass => ArgsModel { samples_per_class: number_of(v), ..m },
        SettingKind::TopK => ArgsModel { top_k: number_of(v), ..m },
        SettingKind::PancThreshold => ArgsModel { panc_threshold: Some(text_of(v)), ..m },
        SettingKind::PancJaccardWeight => ArgsModel { panc_jaccard_weight: Some(text_of(v)), ..m },
        SettingKind::PancActiveBlocks => ArgsModel { panc_active_blocks: Some(number_of(v)), ..m },
        SettingKind::TargetMse => ArgsModel { target_mse: Some(text_of(v)), ..m },
        SettingKind::MatrixModels => match v {
            SettingValue::Models(ms) => ArgsModel { matrix_models: ms, ..m },
            _ => m,
        },
        SettingKind::MatrixFeatures => ArgsModel { matrix_features: names_of(v), ..m },
        SettingKind::MatrixImageSizes => ArgsModel { matrix_image_sizes: numbers_of(v), ..m },
        SettingKind::MatrixIntervals => ArgsModel { matrix_intervals: numbers_of(v), ..m },
        SettingKind::MatrixSeeds => ArgsModel { matrix_seeds: numbers_of(v), ..m },
        SettingKind::MatrixResizeModes => ArgsModel { matrix_resize_modes: names_of(v), ..m },
        SettingKind::MatrixCorrectionModes => match v {
            SettingValue::Corrections(cs) => ArgsModel { matrix_correction_modes: cs, ..m },
            _ => m,
        },
        SettingKind::MatrixTop => ArgsModel { matrix_top: number_of(v), ..m },
        SettingKind::DebugOut => ArgsModel { debug_out_path: Some(text_of(v)), ..m },
        SettingKind::DebugTrainData => ArgsModel { debug_train_data_path: Some(text_of(v)), ..m },
        SettingKind::DebugLimit => ArgsModel { debug_limit: number_of(v), ..m },
        SettingKind::DebugSamples => match v {
            SettingValue::Samples(d) => ArgsModel { debug_samples: d, ..m },
            _ => m,
        },
        SettingKind::DebugNeighbors => ArgsModel { debug_neighbors: number_of(v), ..m },
        SettingKind::PatchSize => ArgsModel { patch_size: number_of(v), ..m },
        SettingKind::PatchStride => ArgsModel { patch_stride: number_of(v), ..m },
        SettingKind::MaxTrainPatches => ArgsModel { max_train_patches: number_of(v), ..m },
        SettingKind::AnomalyThresholdQuantile => ArgsModel {
            anomaly_threshold_quantile: text_of(v),
            ..m
        },
        SettingKind::Population => ArgsModel { evolution_population: number_of(v), ..m },
        SettingKind::Generations => ArgsModel { evolution_generations: number_of(v), ..m },
        SettingKind::EliteCount => ArgsModel { evolution_elite_count: number_of(v), ..m },
        SettingKind::MutationRate => ArgsModel { evolution_mutation_rate: text_of(v), ..m },
        SettingKind::ValidationRatio => ArgsModel { evolution_validation_ratio: text_of(v), ..m },
        SettingKind::Threads => ArgsModel { evolution_threads: number_of(v), ..m },
        SettingKind::EvolveFeatures => ArgsModel { evolution_feature_modes: names_of(v), ..m },
        SettingKind::EvolveImageSizes => ArgsModel { evolution_image_sizes: numbers_of(v), ..m },
        SettingKind::EvolveResizeModes => ArgsModel { evolution_resize_modes: names_of(v), ..m },
        SettingKind::EvolveTopK => ArgsModel { evolution_top_k_values: numbers_of(v), ..m },
        SettingKind::MemoryPenalty => ArgsModel {
            evolution_memory_penalty_per_mb: text_of(v),
            ..m
        },
        SettingKind::InferencePenalty => ArgsModel {
            evolution_inference_penalty_per_ms: text_of(v),
            ..m
        },
    }
}

/// The value the setting `kind` holds (for the image size, the width; for a
/// setting that may be unset, its value when set).
pub open spec fn setting_of(m: ArgsModel, kind: SettingKind) -> SettingValue {
    match kind {
        SettingKind::Format => SettingValue::Format(m.format),
        SettingKind::DataPath => SettingValue::Text(m.data_path->0),
        SettingKind::EvalDataPath => SettingValue::Text(m.eval_data_path->0),
        SettingKind::DatasetConfigPath => SettingValue::Text(m.dataset_config_path->0),
        SettingKind::OutPath => SettingValue::Text(m.out_path->0),
        SettingKind::ReportOutPath => SettingValue::Text(m.report_out_path->0),
        SettingKind::ModelPath => SettingValue::Text(m.model_path->0),
        SettingKind::ImagePath => SettingValue::Text(m.image_path->0),
        SettingKind::SearchArtifactPath => SettingValue::Text(m.search_artifact_path->0),
        SettingKind::Epochs => SettingValue::Number(m.epochs),
        SettingKind::Intervals => SettingValue::Number(m.intervals),
        SettingKind::Correction => SettingValue::Correction(m.correction_mode),
        SettingKind::Seed => SettingValue::Number(m.seed),
        SettingKind::ImageSize => SettingValue::Number(m.image_width),
        SettingKind::ImageWidth => SettingValue::Number(m.image_width),
        SettingKind::ImageHeight => SettingValue::Number(m.image_height),
        SettingKind::ImageFeatures => SettingValue::Text(m.image_features),
        SettingKind::ImageResize => SettingValue::Text(m.image_resize),
        SettingKind::SamplesPerClass => SettingValue::Number(m.samples_per_class),
        SettingKind::TopK => SettingValue::Number(m.top_k),
        SettingKind::PancThreshold => SettingValue::Text(m.panc_threshold->0),
        SettingKind::PancJaccardWeight => SettingValue::Text(m.panc_jaccard_weight->0),
        SettingKind::PancActiveBlocks => SettingValue::Number(m.panc_active_blocks->0),
        SettingKind::TargetMse => SettingValue::Text(m.target_mse->0),
        SettingKind::MatrixModels => SettingValue::Models(m.matrix_models),
        SettingKind::MatrixFeatures => SettingValue::Names(m.matrix_features),
        SettingKind::MatrixImageSizes => SettingValue::Numbers(m.matrix_image_sizes),
        SettingKind::MatrixIntervals => SettingValue::Numbers(m.matrix_intervals),
        SettingKind::MatrixSeeds => SettingValue::Numbers(m.matrix_seeds),
        SettingKind::MatrixResizeModes => SettingValue::Names(m.matrix_resize_modes),
        SettingKind::MatrixCorrectionModes => SettingValue::Corrections(m.matrix_correction_modes),
        SettingKind::MatrixTop => SettingValue::Number(m.matrix_top),
        SettingKind::DebugOut => SettingValue::Text(m.debug_out_path->0),
        SettingKind::DebugTrainData => SettingValue::Text(m.debug_train_data_path->0),
        SettingKind::DebugLimit => SettingValue::Number(m.debug_limit),
        SettingKind::DebugSamples => SettingValue::Samples(m.debug_samples),
        SettingKind::DebugNeighbors => SettingValue::Number(m.debug_neighbors),
        SettingKind::PatchSize => SettingValue::Number(m.patch_size),
        SettingKind::PatchStride => SettingValue::Number(m.patch_stride),
        SettingKind::MaxTrainPatches => SettingValue::Number(m.max_train_patches),
        SettingKind::AnomalyThresholdQuantile => SettingValue::Text(m.anomaly_threshold_quantile),
        SettingKind::Population => SettingValue::Number(m.evolution_population),
        SettingKind::Generations => SettingValue::Number(m.evolution_generations),
        SettingKind::EliteCount => SettingValue::Number(m.evolution_elite_count),
        SettingKind::MutationRate => SettingValue::Text(m.evolution_mutation_rate),
        SettingKind::ValidationRatio => SettingValue::Text(m.evolution_validation_ratio),
        SettingKind::Threads => SettingValue::Number(m.evolution_threads),
        SettingKind::EvolveFeatures => SettingValue::Names(m.evolution_feature_modes),
        SettingKind::EvolveImageSizes => SettingValue::Numbers(m.evolution_image_sizes),
        SettingKind::EvolveResizeModes => SettingValue::Names(m.evolution_resize_modes),
        SettingKind::EvolveTopK => SettingValue::Numbers(m.evolution_top_k_values),
        SettingKind::MemoryPenalty => SettingValue::Text(m.evolution_memory_penalty_per_mb),
        SettingKind::InferencePenalty => SettingValue::Text(m.evolution_inference_penalty_per_ms),
    }
}

fn narrow_u32(values: Vec<u64>) -> (r: Vec<u32>)
    requires
        forall|i: int| 0 <= i < values@.len() ==> #[trigger] values@[i] <= u32::MAX,
    ensures
        nats_u32(r@) == nats_of(values@),
{
    let mut out: Vec<u32> = Vec::new();
    let mut i: usize = 0;
    while i < values.len()
        invariant
            i <= values@.len(),
            forall|j: int| 0 <= j < values@.len() ==> #[trigger] values@[j] <= u32::MAX,
            nats_u32(out@) == nats_of(values@.take(i as int)),
        decreases values@.len() - i,
    {
        let ghost before = out@;
        out.push(values[i] as u32);
        assert(nats_u32(out@) =~= nats_u32(before).push(values@[i as int] as nat));
        assert(values@.take(i + 1) =~= values@.take(i as int).push(values@[i as int]));
        assert(nats_of(values@.take(i + 1)) =~= nats_of(values@.take(i as int)).push(
            values@[i as int] as nat,
        ));
        i = i + 1;
    }
    assert(values@.take(i as int) =~= values@);
    out
}

fn narrow_usize(values: Vec<u64>) -> (r: Vec<usize>)
    requires
        forall|i: int| 0 <= i < values@.len() ==> #[trigger] values@[i] <= usize::MAX,
    ensures
        nats_usize(r@) == nats_of(values@),
{
    let mut out: Vec<usize> = Vec::new();
    let mut i: usize = 0;
    while i < values.len()
        invariant
            i <= values@.len(),
            forall|j: int| 0 <= j < values@.len() ==> #[trigger] values@[j] <= usize::MAX,
            nats_usize(out@) == nats_of(values@.take(i as int)),
        decreases values@.len() - i,
    {
        let ghost before = out@;
        out.push(values[i] as usize);
        assert(nats_usize(out@) =~= nats_usize(before).push(values@[i as int] as nat));
        assert(values@.take(i + 1) =~= values@.take(i as int).push(values@[i as int]));
        assert(nats_of(values@.take(i + 1)) =~= nats_of(values@.take(i as int)).push(
            values@[i as int] as nat,
        ));
        i = i + 1;
    }
    assert(values@.take(i as int) =~= values@);
    out
}

/// Gives the setting `kind` the value `value`; every other setting stays.
#[verifier::rlimit(40)]
pub fn assign_setting(args: &mut Args, kind: SettingKind, value: Setting)
    requires
        fits(kind, value@),
    ensures
        final(args)@ == assign(old(args)@, kind, value@),
{
    match value {
        Setting::Text(t) => match kind {
            SettingKind::DataPath => args.data_path = Some(t),
            SettingKind::EvalDataPath => args.eval_data_path = Some(t),
            SettingKind::DatasetConfigPath => args.dataset_config_path = Some(t),
            SettingKind::OutPath => args.out_path = Some(t),
            SettingKind::ReportOutPath => args.report_out_path = Some(t),
            SettingKind::ModelPath => args.model_path = Some(t),
            SettingKind::ImagePath => args.image_path = Some(t),
            SettingKind::SearchArtifactPath => args.search_artifact_path = Some(t),
            SettingKind::ImageFeatures => args.image_features = t,
            SettingKind::ImageResize => args.image_resize = t,
            SettingKind::PancThreshold => args.panc_threshold = Some(t),
            SettingKind::PancJaccardWeight => args.panc_jaccard_weight = Some(t),
            SettingKind::TargetMse => args.target_mse = Some(t),
            SettingKind::DebugOut => args.debug_out_path = Some(t),
            SettingKind::DebugTrainData => args.debug_train_data_path = Some(t),
            SettingKind::AnomalyThresholdQuantile => args.anomaly_threshold_quantile = t,
            SettingKind::MutationRate => args.evolution_mutation_rate = t,
            SettingKind::ValidationRatio => args.evolution_validation_ratio = t,
            SettingKind::MemoryPenalty => args.evolution_memory_penalty_per_mb = t,
            _ => args.evolution_inference_penalty_per_ms = t,
        },
        Setting::Number(n) => match kind {
            SettingKind::Epochs => args.epochs = n as usize,
            SettingKind::Intervals => args.intervals = n as usize,
            SettingKind::Seed => args.seed = n,
            SettingKind::ImageSize => {
                args.image_width = n as u32;
                args.image_height = n as u32;
            },
            SettingKind::ImageWidth => args.image_width = n as u32,
            SettingKind::ImageHeight => args.image_height = n as u32,
            SettingKind::SamplesPerClass => args.samples_per_class = n as usize,
            SettingKind::TopK => args.top_k = n as usize,
            SettingKind::PancActiveBlocks => args.panc_active_blocks = Some(n as u32),
            SettingKind::MatrixTop => args.matrix_top = n as usize,
            SettingKind::DebugLimit => args.debug_limit = n as usize,
            SettingKind::DebugNeighbors => args.debug_neighbors = n as usize,
            SettingKind::PatchSize => args.patch_size = n as u32,
            SettingKind::PatchStride => args.patch_stride = n as u32,
            SettingKind::MaxTrainPatches => args.max_train_patches = n as usize,
            SettingKind::Population => args.evolution_population = n as usize,
            SettingKind::Generations => args.evolution_generations = n as usize,
            SettingKind::EliteCount => args.evolution_elite_count = n as usize,
            _ => args.evolution_threads = n as usize,
        },
        Setting::Names(ns) => match kind {
            SettingKind::MatrixFeatures => args.matrix_features = ns,
            SettingKind::MatrixResizeModes => args.matrix_resize_modes = ns,
            SettingKind::EvolveFeatures => args.evolution_feature_modes = ns,
            _ => args.evolution_resize_modes = ns,
        },
        Setting::Numbers(ns) => {
            proof {
                assert forall|i: int| 0 <= i < ns@.len() implies #[trigger] ns@[i] <= kind_max(
                    kind,
                ) by {
                    assert(nats_of(ns@)[i] == ns@[i] as nat);
                }
            }
            match kind {
            SettingKind::MatrixImageSizes => args.matrix_image_sizes = narrow_u32(ns),
            SettingKind::MatrixIntervals => args.matrix_intervals = narrow_usize(ns),
            SettingKind::MatrixSeeds => args.matrix_seeds = ns,
            SettingKind::EvolveImageSizes => args.evolution_image_sizes = narrow_u32(ns),
            _ => args.evolution_top_k_values = narrow_usize(ns),
            }
        },
        Setting::Format(f) => args.format = f,
        Setting::Correction(c) => args.correction_mode = c,
        Setting::Corrections(cs) => args.matrix_correction_modes = cs,
        Setting::Models(ms) => args.matrix_models = ms,
        Setting::Samples(d) => args.debug_samples = d,
    }
}


/// The name under which a setting's source is recorded (for the image size,
/// the width; the height is recorded too).
pub open spec fn field_name(kind: SettingKind) -> Seq<char> {
    match kind {
        SettingKind::Format => "format"@,
        SettingKind::DataPath => "data_path"@,
        SettingKind::EvalDataPath => "eval_data_path"@,
        SettingKind::DatasetConfigPath => "dataset_config_path"@,
        SettingKind::OutPath => "out_path"@,
        SettingKind::ReportOutPath => "report_out_path"@,
        SettingKind::ModelPath => "model_path"@,
        SettingKind::ImagePath => "image_path"@,
        SettingKind::SearchArtifactPath => "search_artifact_path"@,
        SettingKind::Epochs => "epochs"@,
        SettingKind::Intervals => "intervals"@,
        SettingKind::Correction => "correction_mode"@,
        SettingKind::Seed => "seed"@,
        SettingKind::ImageSize => "image_width"@,
        SettingKind::ImageWidth => "image_width"@,
        SettingKind::ImageHeight => "image_height"@,
        SettingKind::ImageFeatures => "image_features"@,
        SettingKind::ImageResize => "image_resize"@,
        SettingKind::SamplesPerClass => "samples_per_class"@,
        SettingKind::TopK => "top_k"@,
        SettingKind::PancThreshold => "panc_threshold"@,
        SettingKind::PancJaccardWeight => "panc_jaccard_weight"@,
        SettingKind::PancActiveBlocks => "panc_active_blocks"@,
        SettingKind::TargetMse => "target_mse"@,
        SettingKind::MatrixModels => "matrix_models"@,
        SettingKind::MatrixFeatures => "matrix_features"@,
        SettingKind::MatrixImageSizes => "matrix_image_sizes"@,
        SettingKind::MatrixIntervals => "matrix_intervals"@,
        SettingKind::MatrixSeeds => "matrix_seeds"@,
        SettingKind::MatrixResizeModes => "matrix_resize_modes"@,
        SettingKind::MatrixCorrectionModes => "matrix_correction_modes"@,
        SettingKind::MatrixTop => "matrix_top"@,
        SettingKind::DebugOut => "debug_out_path"@,
        SettingKind::DebugTrainData => "debug_train_data_path"@,
        SettingKind::DebugLimit => "debug_limit"@,
        SettingKind::DebugSamples => "debug_samples"@,
        SettingKind::DebugNeighbors => "debug_neighbors"@,
        SettingKind::PatchSize => "patch_size"@,
        SettingKind::PatchStride => "patch_stride"@,
        SettingKind::MaxTrainPatches => "max_train_patches"@,
        SettingKind::AnomalyThresholdQuantile => "anomaly_threshold_quantile"@,
        SettingKind::Population => "evolution_population"@,
        SettingKind::Generations => "evolution_generations"@,
        SettingKind::EliteCount => "evolution_elite_count"@,
        SettingKind::MutationRate => "evolution_mutation_rate"@,
        SettingKind::ValidationRatio => "evolution_validation_ratio"@,
        SettingKind::Threads => "evolution_threads"@,
        SettingKind::EvolveFeatures => "evolution_feature_modes"@,
        SettingKind::EvolveImageSizes => "evolution_image_sizes"@,
        SettingKind::EvolveResizeModes => "evolution_resize_modes"@,
        SettingKind::EvolveTopK => "evolution_top_k_values"@,
        SettingKind::MemoryPenalty => "evolution_memory_penalty_per_mb"@,
        SettingKind::InferencePenalty => "evolution_inference_penalty_per_ms"@,
    }
}

fn field_name_text(kind: SettingKind) -> (r: &'static str)
    ensures
        r@ == field_name(kind),
{
    match kind {
        SettingKind::Format => "format",
        SettingKind::DataPath => "data_path",
        SettingKind::EvalDataPath => "eval_data_path",
        SettingKind::DatasetConfigPath => "dataset_config_path",
        SettingKind::OutPath => "out_path",
        SettingKind::ReportOutPath => "report_out_path",
        SettingKind::ModelPath => "model_path",
        SettingKind::ImagePath => "image_path",
        SettingKind::SearchArtifactPath => "search_artifact_path",
        SettingKind::Epochs => "epochs",
        SettingKind::Intervals => "intervals",
        SettingKind::Correction => "correction_mode",
        SettingKind::Seed => "seed",
        SettingKind::ImageSize => "image_width",
        SettingKind::ImageWidth => "image_width",
        SettingKind::ImageHeight => "image_height",
        SettingKind::ImageFeatures => "image_features",
        SettingKind::ImageResize => "image_resize",
        SettingKind::SamplesPerClass => "samples_per_class",
        SettingKind::TopK => "top_k",
        SettingKind::PancThreshold => "panc_threshold",
        SettingKind::PancJaccardWeight => "panc_jaccard_weight",
        SettingKind::PancActiveBlocks => "panc_active_blocks",
        SettingKind::TargetMse => "target_mse",
        SettingKind::MatrixModels => "matrix_models",
        SettingKind::MatrixFeatures => "matrix_features",
        SettingKind::MatrixImageSizes => "matrix_image_sizes",
        SettingKind::MatrixIntervals => "matrix_intervals",
        SettingKind::MatrixSeeds => "matrix_seeds",
        SettingKind::MatrixResizeModes => "matrix_resize_modes",
        SettingKind::MatrixCorrectionModes => "matrix_correction_modes",
        SettingKind::MatrixTop => "matrix_top",
        SettingKind::DebugOut => "debug_out_path",
        SettingKind::DebugTrainData => "debug_train_data_path",
        SettingKind::DebugLimit => "debug_limit",
        SettingKind::DebugSamples => "debug_samples",
        SettingKind::DebugNeighbors => "debug_neighbors",
        SettingKind::PatchSize => "patch_size",
        SettingKind::PatchStride => "patch_stride",
        SettingKind::MaxTrainPatches => "max_train_patches",
        SettingKind::AnomalyThresholdQuantile => "anomaly_threshold_quantile",
        SettingKind::Population => "evolution_population",
        SettingKind::Generations => "evolution_generations",
        SettingKind::EliteCount => "evolution_elite_count",
        SettingKind::MutationRate => "evolution_mutation_rate",
        SettingKind::ValidationRatio => "evolution_validation_ratio",
        SettingKind::Threads => "evolution_threads",
        SettingKind::EvolveFeatures => "evolution_feature_modes",
        SettingKind::EvolveImageSizes => "evolution_image_sizes",
        SettingKind::EvolveResizeModes => "evolution_resize_modes",
        SettingKind::EvolveTopK => "evolution_top_k_values",
        SettingKind::MemoryPenalty => "evolution_memory_penalty_per_mb",
        SettingKind::InferencePenalty => "evolution_inference_penalty_per_ms",
    }
}

/// The sources after the setting `kind` is recorded as coming from `source`.
pub open spec fn mark(
    s: Map<Seq<char>, ConfigSource>,
    kind: SettingKind,
    source: ConfigSource,
) -> Map<Seq<char>, ConfigSource> {
    if kind == SettingKind::ImageSize {
        s.insert("image_width"@, source).insert("image_height"@, source)
    } else {
        s.insert(field_name(kind), source)
    }
}

/// Records that the setting `kind` came from `source`.
pub fn mark_source(sources: &mut SourceMap, kind: SettingKind, source: ConfigSource)
    ensures
        final(sources)@ == mark(old(sources)@, kind, source),
{
    if kind == SettingKind::ImageSize {
        set_source(sources, "image_width", source);
        set_source(sources, "image_height", source);
    } else {
        set_source(sources, field_name_text(kind), source);
    }
}

/// The setting a flag that takes the next argument as its value names.
pub open spec fn flag_setting(flag: Seq<char>) -> Option<SettingKind> {
    if flag == "--format"@ {
        Some(SettingKind::Format)
    } else if flag == "--data"@ {
        Some(SettingKind::DataPath)
    } else if flag == "--eval-data"@ {
        Some(SettingKind::EvalDataPath)
    } else if flag == "--dataset-config"@ || flag == "--dataset-config.location"@ || flag == "--dataset-config-location"@ {
        Some(SettingKind::DatasetConfigPath)
    } else if flag == "--out"@ {
        Some(SettingKind::OutPath)
    } else if flag == "--report-out"@ {
        Some(SettingKind::ReportOutPath)
    } else if flag == "--model"@ {
        Some(SettingKind::ModelPath)
    } else if flag == "--image"@ {
        Some(SettingKind::ImagePath)
    } else if flag == "--search-artifact"@ || flag == "--search-artifact.location"@ || flag == "--search-artifact-location"@ {
        Some(SettingKind::SearchArtifactPath)
    } else if flag == "--epochs"@ {
        Some(SettingKind::Epochs)
    } else if flag == "--intervals"@ {
        Some(SettingKind::Intervals)
    } else if flag == "--correction-mode"@ {
        Some(SettingKind::Correction)
    } else if flag == "--seed"@ {
        Some(SettingKind::Seed)
    } else if flag == "--image-size"@ {
        Some(SettingKind::ImageSize)
    } else if flag == "--image-width"@ {
        Some(SettingKind::ImageWidth)
    } else if flag == "--image-height"@ {
        Some(SettingKind::ImageHeight)
    } else if flag == "--image-features"@ {
        Some(SettingKind::ImageFeatures)
    } else if flag == "--image-resize"@ {
        Some(SettingKind::ImageResize)
    } else if flag == "--samples-per-class"@ {
        Some(SettingKind::SamplesPerClass)
    } else if flag == "--top-k"@ {
        Some(SettingKind::TopK)
    } else if flag == "--panc-threshold"@ {
        Some(SettingKind::PancThreshold)
    } else if flag == "--panc-jaccard-weight"@ {
        Some(SettingKind::PancJaccardWeight)
    } else if flag == "--panc-active-blocks"@ {
        Some(SettingKind::PancActiveBlocks)
    } else if flag == "--target-mse"@ {
        Some(SettingKind::TargetMse)
    } else if flag == "--matrix-models"@ {
        Some(SettingKind::MatrixModels)
    } else if flag == "--matrix-features"@ {
        Some(SettingKind::MatrixFeatures)
    } else if flag == "--matrix-image-sizes"@ {
        Some(SettingKind::MatrixImageSizes)
    } else if flag == "--matrix-intervals"@ {
        Some(SettingKind::MatrixIntervals)
    } else if flag == "--matrix-seeds"@ {
        Some(SettingKind::MatrixSeeds)
    } else if flag == "--matrix-resize-modes"@ {
        Some(SettingKind::MatrixResizeModes)
    } else if flag == "--matrix-correction-modes"@ {
        Some(SettingKind::MatrixCorrectionModes)
    } else if flag == "--matrix-top"@ {
        Some(SettingKind::MatrixTop)
    } else if flag == "--debug"@ || flag == "--debug-out"@ {
        Some(SettingKind::DebugOut)
    } else if flag == "--debug-train-data"@ {
        Some(SettingKind::DebugTrainData)
    } else if flag == "--debug-limit"@ {
        Some(SettingKind::DebugLimit)
    } else if flag == "--debug-samples"@ {
        Some(SettingKind::DebugSamples)
    } else if flag == "--debug-neighbors"@ {
        Some(SettingKind::DebugNeighbors)
    } else if flag == "--patch-size"@ {
        Some(SettingKind::PatchSize)
    } else if flag == "--patch-stride"@ {
        Some(SettingKind::PatchStride)
    } else if flag == "--max-train-patches"@ {
        Some(SettingKind::MaxTrainPatches)
    } else if flag == "--anomaly-threshold-quantile"@ {
        Some(SettingKind::AnomalyThresholdQuantile)
    } else if flag == "--population"@ {
        Some(SettingKind::Population)
    } else if flag == "--generations"@ {
        Some(SettingKind::Generations)
    } else if flag == "--elite"@ || flag == "--elite-count"@ {
        Some(SettingKind::EliteCount)
    } else if flag == "--mutation-rate"@ {
        Some(SettingKind::MutationRate)
    } else if flag == "--validation-ratio"@ {
        Some(SettingKind::ValidationRatio)
    } else if flag == "--threads"@ {
        Some(SettingKind::Threads)
    } else if flag == "--evolve-features"@ {
        Some(SettingKind::EvolveFeatures)
    } else if flag == "--evolve-image-sizes"@ {
        Some(SettingKind::EvolveImageSizes)
    } else if flag == "--evolve-resize-modes"@ {
        Some(SettingKind::EvolveResizeModes)
    } else if flag == "--evolve-top-k"@ {
        Some(SettingKind::EvolveTopK)
    } else if flag == "--memory-penalty-per-mb"@ {
        Some(SettingKind::MemoryPenalty)
    } else if flag == "--inference-penalty-per-ms"@ {
        Some(SettingKind::InferencePenalty)
    } else {
        None
    }
}

fn flag_setting_of(flag: &str) -> (r: Option<SettingKind>)
    ensures
        r == flag_setting(flag@),
{
    if str_eq(flag, "--format") {
        Some(SettingKind::Format)
    } else if str_eq(flag, "--data") {
        Some(SettingKind::DataPath)
    } else if str_eq(flag, "--eval-data") {
        Some(SettingKind::EvalDataPath)
    } else if str_eq(flag, "--dataset-config") || str_eq(flag, "--dataset-config.location") || str_eq(flag, "--dataset-config-location") {
        Some(SettingKind::DatasetConfigPath)
    } else if str_eq(flag, "--out") {
        Some(SettingKind::OutPath)
    } else if str_eq(flag, "--report-out") {
        Some(SettingKind::ReportOutPath)
    } else if str_eq(flag, "--model") {
        Some(SettingKind::ModelPath)
    } else if str_eq(flag, "--image") {
        Some(SettingKind::ImagePath)
    } else if str_eq(flag, "--search-artifact") || str_eq(flag, "--search-artifact.location") || str_eq(flag, "--search-artifact-location") {
        Some(SettingKind::SearchArtifactPath)
    } else if str_eq(flag, "--epochs") {
        Some(SettingKind::Epochs)
    } else if str_eq(flag, "--intervals") {
        Some(SettingKind::Intervals)
    } else if str_eq(flag, "--correction-mode") {
        Some(SettingKind::Correction)
    } else if str_eq(flag, "--seed") {
        Some(SettingKind::Seed)
    } else if str_eq(flag, "--image-size") {
        Some(SettingKind::ImageSize)
    } else if str_eq(flag, "--image-width") {
        Some(SettingKind::ImageWidth)
    } else if str_eq(flag, "--image-height") {
        Some(SettingKind::ImageHeight)
    } else if str_eq(flag, "--image-features") {
        Some(SettingKind::ImageFeatures)
    } else if str_eq(flag, "--image-resize") {
        Some(SettingKind::ImageResize)
    } else if str_eq(flag, "--samples-per-class") {
        Some(SettingKind::SamplesPerClass)
    } else if str_eq(flag, "--top-k") {
        Some(SettingKind::TopK)
    } else if str_eq(flag, "--panc-threshold") {
        Some(SettingKind::PancThreshold)
    } else if str_eq(flag, "--panc-jaccard-weight") {
        Some(SettingKind::PancJaccardWeight)
    } else if str_eq(flag, "--panc-active-blocks") {
        Some(SettingKind::PancActiveBlocks)
    } else if str_eq(flag, "--target-mse") {
        Some(SettingKind::TargetMse)
    } else if str_eq(flag, "--matrix-models") {
        Some(SettingKind::MatrixModels)
    } else if str_eq(flag, "--matrix-features") {
        Some(SettingKind::MatrixFeatures)
    } else if str_eq(flag, "--matrix-image-sizes") {
        Some(SettingKind::MatrixImageSizes)
    } else if str_eq(flag, "--matrix-intervals") {
        Some(SettingKind::MatrixIntervals)
    } else if str_eq(flag, "--matrix-seeds") {
        Some(SettingKind::MatrixSeeds)
    } else if str_eq(flag, "--matrix-resize-modes") {
        Some(SettingKind::MatrixResizeModes)
    } else if str_eq(flag, "--matrix-correction-modes") {
        Some(SettingKind::MatrixCorrectionModes)
    } else if str_eq(flag, "--matrix-top") {
        Some(SettingKind::MatrixTop)
    } else if str_eq(flag, "--debug") || str_eq(flag, "--debug-out") {
        Some(SettingKind::DebugOut)
    } else if str_eq(flag, "--debug-train-data") {
        Some(SettingKind::DebugTrainData)
    } else if str_eq(flag, "--debug-limit") {
        Some(SettingKind::DebugLimit)
    } else if str_eq(flag, "--debug-samples") {
        Some(SettingKind::DebugSamples)
    } else if str_eq(flag, "--debug-neighbors") {
        Some(SettingKind::DebugNeighbors)
    } else if str_eq(flag, "--patch-size") {
        Some(SettingKind::PatchSize)
    } else if str_eq(flag, "--patch-stride") {
        Some(SettingKind::PatchStride)
    } else if str_eq(flag, "--max-train-patches") {
        Some(SettingKind::MaxTrainPatches)
    } else if str_eq(flag, "--anomaly-threshold-quantile") {
        Some(SettingKind::AnomalyThresholdQuantile)
    } else if str_eq(flag, "--population") {
        Some(SettingKind::Population)
    } else if str_eq(flag, "--generations") {
        Some(SettingKind::Generations)
    } else if str_eq(flag, "--elite") || str_eq(flag, "--elite-count") {
        Some(SettingKind::EliteCount)
    } else if str_eq(flag, "--mutation-rate") {
        Some(SettingKind::MutationRate)
    } else if str_eq(flag, "--validation-ratio") {
        Some(SettingKind::ValidationRatio)
    } else if str_eq(flag, "--threads") {
        Some(SettingKind::Threads)
    } else if str_eq(flag, "--evolve-features") {
        Some(SettingKind::EvolveFeatures)
    } else if str_eq(flag, "--evolve-image-sizes") {
        Some(SettingKind::EvolveImageSizes)
    } else if str_eq(flag, "--evolve-resize-modes") {
        Some(SettingKind::EvolveResizeModes)
    } else if str_eq(flag, "--evolve-top-k") {
        Some(SettingKind::EvolveTopK)
    } else if str_eq(flag, "--memory-penalty-per-mb") {
        Some(SettingKind::MemoryPenalty)
    } else if str_eq(flag, "--inference-penalty-per-ms") {
        Some(SettingKind::InferencePenalty)
    } else {
        None
    }
}

/// How the argument loop treats one argument.
#[derive(Debug, Clone, Copy, PartialEq, Eq, Structural)]
pub enum FlagRule {
    /// A flag whose value is the next argument.
    TakesValue(SettingKind),
    /// A flag with its value inline: the value is what follows the first
    /// `n` characters.
    Inline(SettingKind, usize),
    /// A flag handled before the loop (a configuration or search artifact
    /// path written inline).
    Ignored,
    /// Not a flag.
    Positional,
    /// A flag that names no setting.
    Unknown,
}

/// Inline forms of the flags that the loop passes over.
pub open spec fn ignored_inline(flag: Seq<char>) -> bool {
    has_prefix(flag, "--config="@) || has_prefix(flag, "--config.location="@) || has_prefix(
        flag,
        "--dataset-config="@,
    ) || has_prefix(flag, "--dataset-config.location="@) || has_prefix(
        flag,
        "--search-artifact="@,
    ) || has_prefix(flag, "--search-artifact.location="@)
}

/// How the argument loop treats the argument `flag`.
pub open spec fn flag_rule(flag: Seq<char>) -> FlagRule {
    if flag_setting(flag) is Some {
        FlagRule::TakesValue(flag_setting(flag)->0)
    } else if has_prefix(flag, "--dataset-config="@) {
        FlagRule::Inline(SettingKind::DatasetConfigPath, "--dataset-config="@.len() as usize)
    } else if has_prefix(flag, "--dataset-config.location="@) {
        FlagRule::Inline(
            SettingKind::DatasetConfigPath,
            "--dataset-config.location="@.len() as usize,
        )
    } else if has_prefix(flag, "--report-out="@) {
        FlagRule::Inline(SettingKind::ReportOutPath, "--report-out="@.len() as usize)
    } else if ignored_inline(flag) {
        FlagRule::Ignored
    } else if !has_prefix(flag, "--"@) {
        FlagRule::Positional
    } else {
        FlagRule::Unknown
    }
}

fn flag_rule_of(flag: &str) -> (r: FlagRule)
    ensures
        r == flag_rule(flag@),
        r matches FlagRule::Inline(_, n) ==> n <= flag@.len(),
{
    proof {
        reveal_strlit("--dataset-config=");
        reveal_strlit("--dataset-config.location=");
        reveal_strlit("--report-out=");
    }
    match flag_setting_of(flag) {
        Some(kind) => FlagRule::TakesValue(kind),
        None => {
            if starts_with(flag, "--dataset-config=") {
                FlagRule::Inline(SettingKind::DatasetConfigPath, 17)
            } else if starts_with(flag, "--dataset-config.location=") {
                FlagRule::Inline(SettingKind::DatasetConfigPath, 26)
            } else if starts_with(flag, "--report-out=") {
                FlagRule::Inline(SettingKind::ReportOutPath, 13)
            } else if starts_with(flag, "--config=") || starts_with(flag, "--config.location=")
                || starts_with(flag, "--dataset-config=") || starts_with(
                flag,
                "--dataset-config.location=",
            ) || starts_with(flag, "--search-artifact=") || starts_with(
                flag,
                "--search-artifact.location=",
            ) {
                FlagRule::Ignored
            } else if !starts_with(flag, "--") {
                FlagRule::Positional
            } else {
                FlagRule::Unknown
            }
        },
    }
}

/// The settings, their sources and the refusal, if any, after the argument
/// loop runs from position `i`. Configuration flags are passed over (with
/// their value when it is the next argument); a flag takes the next argument
/// or its inline text as its value; a missing value, a refused value, a
/// stray argument or an unknown flag stops the loop with the settings as
/// they were.
pub open spec fn cli_run(
    m: ArgsModel,
    s: Map<Seq<char>, ConfigSource>,
    raw: Seq<Seq<char>>,
    i: int,
) -> (ArgsModel, Map<Seq<char>, ConfigSource>, Option<ArgFault>)
    decreases raw.len() + 1 - i,
{
    if i < 0 || i >= raw.len() {
        (m, s, None)
    } else {
        let flag = raw[i];
        if inline_config_path(flag) is Some {
            cli_run(m, s, raw, i + 1)
        } else if is_config_flag(flag) {
            cli_run(m, s, raw, i + 2)
        } else {
            match flag_rule(flag) {
                FlagRule::TakesValue(kind) => if i + 1 < raw.len() {
                    match read_setting(kind, raw[i + 1]) {
                        Ok(v) => cli_run(
                            assign(m, kind, v),
                            mark(s, kind, ConfigSource::Cli),
                            raw,
                            i + 2,
                        ),
                        Err(f) => (m, s, Some(f)),
                    }
                } else {
                    (m, s, Some(ArgFault::MissingValue(flag)))
                },
                FlagRule::Inline(kind, n) => match read_setting(kind, flag.skip(n as int)) {
                    Ok(v) => cli_run(assign(m, kind, v), mark(s, kind, ConfigSource::Cli), raw, i + 1),
                    Err(f) => (m, s, Some(f)),
                },
                FlagRule::Ignored => cli_run(m, s, raw, i + 1),
                FlagRule::Positional => (m, s, Some(ArgFault::UnexpectedArgument(flag))),
                FlagRule::Unknown => (m, s, Some(ArgFault::UnknownOption(flag))),
            }
        }
    }
}

/// Applies the command-line flags to the settings, recording each changed
/// setting as coming from the command line. The command itself, when it is
/// the first argument, is skipped.
pub fn apply_cli_flags(
    args: &mut Args,
    raw: &[String],
    has_positional_command: bool,
    sources: &mut SourceMap,
) -> (r: Result<(), ArgError>)
    requires
        raw@.len() + 2 <= usize::MAX,
    ensures
        ({
            let out = cli_run(
                old(args)@,
                old(sources)@,
                views_of(raw@),
                if has_positional_command {
                    1
                } else {
                    0
                },
            );
            &&& final(args)@ == out.0
            &&& final(sources)@ == out.1
            &&& match out.2 {
                None => r is Ok,
                Some(f) => r is Err && r->Err_0@ == f,
            }
        }),
{
    let ghost views = views_of(raw@);
    let ghost start: int = if has_positional_command {
        1
    } else {
        0
    };
    let mut index: usize = if has_positional_command {
        1
    } else {
        0
    };
    let mut failure: Option<ArgError> = None;
    while index < raw.len() && failure.is_none()
        invariant
            views == views_of(raw@),
            views.len() == raw@.len(),
            index <= raw@.len() + 1,
            raw@.len() + 2 <= usize::MAX,
            failure is None ==> cli_run(old(args)@, old(sources)@, views, start) == cli_run(
                args@,
                sources@,
                views,
                index as int,
            ),
            failure is Some ==> cli_run(old(args)@, old(sources)@, views, start) == (
                args@,
                sources@,
                Some(failure->0@),
            ),
        decreases raw@.len() + 1 - index, if failure is None { 1int } else { 0int },
    {
        let flag = raw[index].as_str();
        let ghost i0 = index as int;
        assert(views[i0] == flag@);
        if skip_config_flag(raw, &mut index) {
            continue;
        }
        match flag_rule_of(flag) {
            FlagRule::TakesValue(kind) => {
                match next_value(raw, &mut index, flag) {
                    Ok(value) => {
                        assert(views[index as int] == value@);
                        match read_setting_value(kind, value.as_str()) {
                            Ok(v) => {
                                proof {
                                    lemma_read_fits(kind, value@);
                                }
                                assign_setting(args, kind, v);
                                mark_source(sources, kind, ConfigSource::Cli);
                                index = index + 1;
                            },
                            Err(e) => {
                                failure = Some(e);
                            },
                        }
                    },
                    Err(e) => {
                        failure = Some(e);
                    },
                }
            },
            FlagRule::Inline(kind, n) => {
                let value = chars_after(flag, n);
                match read_setting_value(kind, value.as_str()) {
                    Ok(v) => {
                        proof {
                            lemma_read_fits(kind, value@);
                        }
                        assign_setting(args, kind, v);
                        mark_source(sources, kind, ConfigSource::Cli);
                        index = index + 1;
                    },
                    Err(e) => {
                        failure = Some(e);
                    },
                }
            },
            FlagRule::Ignored => {
                index = index + 1;
            },
            FlagRule::Positional => {
                failure = Some(ArgError::UnexpectedArgument(string_of(flag)));
            },
            FlagRule::Unknown => {
                failure = Some(ArgError::UnknownOption(string_of(flag)));
            },
        }
    }
    match failure {
        Some(e) => Err(e),
        None => Ok(()),
    }
}



/// The settings of a run of `command` before any configuration file or flag.
pub open spec fn default_model(command: Seq<char>) -> ArgsModel {
    ArgsModel {
        command,
        format: OutputFormat::Json,
        data_path: None,
        eval_data_path: None,
        dataset_config_path: None,
        out_path: None,
        report_out_path: None,
        model_path: None,
        image_path: None,
        search_artifact_path: None,
        epochs: 12,
        intervals: 8,
        correction_mode: CorrectionChoice::DifferenceLeastSquares,
        seed: 42,
        image_width: 16,
        image_height: 16,
        image_features: "pixels"@,
        image_resize: "stretch"@,
        samples_per_class: 80,
        top_k: 3,
        panc_threshold: None,
        panc_jaccard_weight: None,
        panc_active_blocks: None,
        target_mse: None,
        matrix_models: Seq::empty(),
        matrix_features: Seq::empty(),
        matrix_image_sizes: Seq::empty(),
        matrix_intervals: Seq::empty(),
        matrix_seeds: Seq::empty(),
        matrix_resize_modes: Seq::empty(),
        matrix_correction_modes: Seq::empty(),
        matrix_top: 0,
        debug_out_path: None,
        debug_train_data_path: None,
        debug_limit: 50,
        debug_samples: DebugSamples::Misclassified,
        debug_neighbors: 5,
        patch_size: 96,
        patch_stride: 48,
        max_train_patches: 4096,
        anomaly_threshold_quantile: "0.95"@,
        evolution_population: 32,
        evolution_generations: 20,
        evolution_elite_count: 4,
        evolution_mutation_rate: "0.2"@,
        evolution_validation_ratio: "0.2"@,
        evolution_threads: 0,
        evolution_feature_modes: Seq::empty(),
        evolution_image_sizes: Seq::empty(),
        evolution_resize_modes: Seq::empty(),
        evolution_top_k_values: Seq::empty(),
        evolution_memory_penalty_per_mb: "0.0001"@,
        evolution_inference_penalty_per_ms: "0.00001"@,
        config_report: None,
    }
}

/// The default settings of a run of `command`.
pub fn default_args(command: String) -> (r: Args)
    ensures
        r@ == default_model(command@),
{
    let r = Args {
        command,
        format: OutputFormat::Json,
        data_path: None,
        eval_data_path: None,
        dataset_config_path: None,
        out_path: None,
        report_out_path: None,
        model_path: None,
        image_path: None,
        search_artifact_path: None,
        epochs: 12,
        intervals: 8,
        correction_mode: CorrectionChoice::DifferenceLeastSquares,
        seed: 42,
        image_width: 16,
        image_height: 16,
        image_features: string_of("pixels"),
        image_resize: string_of("stretch"),
        samples_per_class: 80,
        top_k: 3,
        panc_threshold: None,
        panc_jaccard_weight: None,
        panc_active_blocks: None,
        target_mse: None,
        matrix_models: Vec::new(),
        matrix_features: Vec::new(),
        matrix_image_sizes: Vec::new(),
        matrix_intervals: Vec::new(),
        matrix_seeds: Vec::new(),
        matrix_resize_modes: Vec::new(),
        matrix_correction_modes: Vec::new(),
        matrix_top: 0,
        debug_out_path: None,
        debug_train_data_path: None,
        debug_limit: 50,
        debug_samples: DebugSamples::Misclassified,
        debug_neighbors: 5,
        patch_size: 96,
        patch_stride: 48,
        max_train_patches: 4096,
        anomaly_threshold_quantile: string_of("0.95"),
        evolution_population: 32,
        evolution_generations: 20,
        evolution_elite_count: 4,
        evolution_mutation_rate: string_of("0.2"),
        evolution_validation_ratio: string_of("0.2"),
        evolution_threads: 0,
        evolution_feature_modes: Vec::new(),
        evolution_image_sizes: Vec::new(),
        evolution_resize_modes: Vec::new(),
        evolution_top_k_values: Vec::new(),
        evolution_memory_penalty_per_mb: string_of("0.0001"),
        evolution_inference_penalty_per_ms: string_of("0.00001"),
        config_report: None,
    };
    assert(r@.matrix_features =~= Seq::<Seq<char>>::empty());
    assert(r@.matrix_image_sizes =~= Seq::<nat>::empty());
    assert(r@.matrix_intervals =~= Seq::<nat>::empty());
    assert(r@.matrix_seeds =~= Seq::<nat>::empty());
    assert(r@.matrix_resize_modes =~= Seq::<Seq<char>>::empty());
    assert(r@.evolution_feature_modes =~= Seq::<Seq<char>>::empty());
    assert(r@.evolution_image_sizes =~= Seq::<nat>::empty());
    assert(r@.evolution_resize_modes =~= Seq::<Seq<char>>::empty());
    assert(r@.evolution_top_k_values =~= Seq::<nat>::empty());
    r
}


/// A path a command needs that the settings do not give.
#[derive(Debug, Clone, Copy, PartialEq, Eq, Structural)]
pub enum MissingPath {
    Data,
    DatasetConfig,
    Out,
    Model,
    Image,
}

impl MissingPath {
    /// The message shown when the path is missing.
    pub fn message(&self) -> (r: String)
        ensures
            r@ == match *self {
                MissingPath::Data => "--data path is required for image-folder benchmarks"@,
                MissingPath::DatasetConfig => "--dataset-config path is required"@,
                MissingPath::Out => "--out path is required for training artifact commands"@,
                MissingPath::Model => "--model path is required for artifact eval/predict commands"@,
                MissingPath::Image => "--image path is required for predict commands"@,
            },
    {
        match self {
            MissingPath::Data => string_of("--data path is required for image-folder benchmarks"),
            MissingPath::DatasetConfig => string_of("--dataset-config path is required"),
            MissingPath::Out => string_of("--out path is required for training artifact commands"),
            MissingPath::Model => string_of(
                "--model path is required for artifact eval/predict commands",
            ),
            MissingPath::Image => string_of("--image path is required for predict commands"),
        }
    }
}

/// The given path, or the error for it when it is not given.
fn required_path(path: &Option<String>, missing: MissingPath) -> (r: Result<String, MissingPath>)
    ensures
        match path {
            Some(p) => r is Ok && r->Ok_0@ == p@,
            None => r == Err::<String, MissingPath>(missing),
        },
{
    match path {
        Some(p) => Ok(p.clone()),
        None => Err(missing),
    }
}

/// The data path, which image-folder benchmarks need.
pub fn required_data_path(args: &Args) -> (r: Result<String, MissingPath>)
    ensures
        match args.data_path {
            Some(p) => r is Ok && r->Ok_0@ == p@,
            None => r == Err::<String, MissingPath>(MissingPath::Data),
        },
{
    required_path(&args.data_path, MissingPath::Data)
}

/// The dataset configuration path, falling back to the data path.
pub fn required_dataset_config_path(args: &Args) -> (r: Result<String, MissingPath>)
    ensures
        match (args.dataset_config_path, args.data_path) {
            (Some(p), _) => r is Ok && r->Ok_0@ == p@,
            (None, Some(p)) => r is Ok && r->Ok_0@ == p@,
            (None, None) => r == Err::<String, MissingPath>(MissingPath::DatasetConfig),
        },
{
    match &args.dataset_config_path {
        Some(p) => Ok(p.clone()),
        None => required_path(&args.data_path, MissingPath::DatasetConfig),
    }
}

/// The output path, which training commands need.
pub fn required_out_path(args: &Args) -> (r: Result<String, MissingPath>)
    ensures
        match args.out_path {
            Some(p) => r is Ok && r->Ok_0@ == p@,
            None => r == Err::<String, MissingPath>(MissingPath::Out),
        },
{
    required_path(&args.out_path, MissingPath::Out)
}

/// The model path, which evaluation and prediction commands need.
pub fn required_model_path(args: &Args) -> (r: Result<String, MissingPath>)
    ensures
        match args.model_path {
            Some(p) => r is Ok && r->Ok_0@ == p@,
            None => r == Err::<String, MissingPath>(MissingPath::Model),
        },
{
    required_path(&args.model_path, MissingPath::Model)
}

/// The image path, which prediction commands need.
pub fn required_image_path(args: &Args) -> (r: Result<String, MissingPath>)
    ensures
        match args.image_path {
            Some(p) => r is Ok && r->Ok_0@ == p@,
            None => r == Err::<String, MissingPath>(MissingPath::Image),
        },
{
    required_path(&args.image_path, MissingPath::Image)
}

} // verus!
