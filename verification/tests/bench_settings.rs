use progress_ai::cli::{
    default_sources, find_search_artifact_path, ArgError, ConfigSource, DebugSamples, MatrixModel,
    OutputFormat,
};
use progress_ai::config::{
    apply_config, build_config_report, config_report_value, config_value_as_csv, decimal_string,
    join_strings, resolve_args, BenchConfig, ConfigItem, ConfigList,
};
use progress_ai::search_space::{choose_positive, choose_top_k, distinct_u64, EvolutionCounts};
use progress_ai::datasets::{
    embedding_columns, label_classes, remap_labels_by_class_name, shuffled_split,
    EmbeddingColumnsError, RemapError,
};
use progress_ai::floats::is_float_syntax;
use progress_ai::metrics::collect_labels;
use progress_ai::numbers::{parse_unsigned_text, NumberFault};
use progress_ai::settings::{
    apply_cli_flags, correction_mode_name, default_args, parse_active_blocks, required_data_path,
    required_dataset_config_path, required_image_path, required_model_path, required_out_path,
    MissingPath,
    parse_correction_mode, parse_correction_modes_list, parse_number_list, CorrectionChoice,
};

fn strings(values: &[&str]) -> Vec<String> {
    values.iter().map(|value| value.to_string()).collect()
}

#[test]
fn unsigned_numbers_read_like_std() {
    assert_eq!(parse_unsigned_text("42", 10, u64::MAX), Ok(42));
    assert_eq!(parse_unsigned_text("+7", 10, u64::MAX), Ok(7));
    assert_eq!(parse_unsigned_text("007", 10, u64::MAX), Ok(7));
    assert_eq!(parse_unsigned_text("", 10, u64::MAX), Err(NumberFault::Empty));
    assert_eq!(parse_unsigned_text("+", 10, u64::MAX), Err(NumberFault::InvalidDigit));
    assert_eq!(parse_unsigned_text("-1", 10, u64::MAX), Err(NumberFault::InvalidDigit));
    assert_eq!(parse_unsigned_text("12x", 10, u64::MAX), Err(NumberFault::InvalidDigit));
    assert_eq!(parse_unsigned_text(" 1", 10, u64::MAX), Err(NumberFault::InvalidDigit));
    assert_eq!(parse_unsigned_text("4294967295", 10, 0xffff_ffff), Ok(4294967295));
    assert_eq!(parse_unsigned_text("4294967296", 10, 0xffff_ffff), Err(NumberFault::TooLarge));
    assert_eq!(
        parse_unsigned_text("18446744073709551616", 10, u64::MAX),
        Err(NumberFault::TooLarge)
    );
    assert_eq!(parse_unsigned_text("fF", 16, u64::MAX), Ok(255));
    assert_eq!(parse_unsigned_text("g", 16, u64::MAX), Err(NumberFault::InvalidDigit));
    for text in ["0", "1", "99", "+5", "", "x", "-3", "4294967296"] {
        let expected = text.parse::<u32>().map(u64::from);
        let got = parse_unsigned_text(text, 10, 0xffff_ffff);
        assert_eq!(got.is_ok(), expected.is_ok(), "{text}");
        if let Ok(value) = expected {
            assert_eq!(got, Ok(value));
        }
    }
}

#[test]
fn active_block_masks_accept_hex_and_decimal() {
    assert_eq!(parse_active_blocks(" 0x00ff "), Ok(0x00ff));
    assert_eq!(parse_active_blocks("0X3"), Ok(3));
    assert_eq!(parse_active_blocks("65535"), Ok(0xffff));
    assert_eq!(parse_active_blocks("0"), Ok(0xffff));
    assert_eq!(parse_active_blocks("0x10000"), Ok(0xffff));
    assert_eq!(parse_active_blocks("0x1_0003"), Err(ArgError::InvalidNumber(
        "0x1_0003".to_string(),
        NumberFault::InvalidDigit,
    )));
    assert_eq!(parse_active_blocks("0x10003"), Ok(3));
    assert_eq!(
        parse_active_blocks("0xzz"),
        Err(ArgError::InvalidNumber("0xzz".to_string(), NumberFault::InvalidDigit))
    );
    assert_eq!(
        parse_active_blocks("   "),
        Err(ArgError::InvalidNumber("   ".to_string(), NumberFault::Empty))
    );
}

#[test]
fn correction_rules_parse_aliases() {
    for name in ["difference-ls", "least_squares", "difference_least_squares"] {
        assert_eq!(parse_correction_mode(name), Ok(CorrectionChoice::DifferenceLeastSquares));
    }
    assert_eq!(
        parse_correction_mode("patent-proportional"),
        Ok(CorrectionChoice::DifferencePatentProportional)
    );
    assert_eq!(parse_correction_mode("ratio"), Ok(CorrectionChoice::Ratio));
    assert_eq!(
        parse_correction_mode("linear"),
        Err(ArgError::InvalidCorrectionMode("linear".to_string()))
    );
    assert_eq!(correction_mode_name(CorrectionChoice::Ratio), "ratio");
    assert_eq!(
        correction_mode_name(CorrectionChoice::DifferencePatentProportional),
        "difference_patent_proportional"
    );
    assert_eq!(
        parse_correction_modes_list("ratio, difference-ls"),
        Ok(vec![CorrectionChoice::Ratio, CorrectionChoice::DifferenceLeastSquares])
    );
    assert_eq!(
        parse_correction_modes_list("ratio,bad,worse"),
        Err(ArgError::InvalidCorrectionMode("bad".to_string()))
    );
}

#[test]
fn number_lists_stop_at_the_first_bad_value() {
    assert_eq!(parse_number_list("16, 32,,64", 0xffff_ffff), Ok(vec![16, 32, 64]));
    assert_eq!(parse_number_list("", 0xffff_ffff), Ok(vec![]));
    assert_eq!(
        parse_number_list("16,abc,-1", 0xffff_ffff),
        Err(ArgError::InvalidNumber("abc".to_string(), NumberFault::InvalidDigit))
    );
}

#[test]
fn defaults_match_the_bench() {
    let args = default_args("panc-iris".to_string());
    assert_eq!(args.command, "panc-iris");
    assert_eq!(args.format, OutputFormat::Json);
    assert_eq!(args.epochs, 12);
    assert_eq!(args.intervals, 8);
    assert_eq!(args.seed, 42);
    assert_eq!((args.image_width, args.image_height), (16, 16));
    assert_eq!(args.image_features, "pixels");
    assert_eq!(args.image_resize, "stretch");
    assert_eq!(args.samples_per_class, 80);
    assert_eq!(args.top_k, 3);
    assert_eq!(args.debug_limit, 50);
    assert_eq!(args.debug_samples, DebugSamples::Misclassified);
    assert_eq!(args.debug_neighbors, 5);
    assert_eq!((args.patch_size, args.patch_stride), (96, 48));
    assert_eq!(args.max_train_patches, 4096);
    assert_eq!(args.anomaly_threshold_quantile, "0.95");
    assert_eq!(args.evolution_population, 32);
    assert_eq!(args.evolution_generations, 20);
    assert_eq!(args.evolution_elite_count, 4);
    assert_eq!(args.evolution_mutation_rate, "0.2");
    assert!(args.matrix_models.is_empty());
    assert!(args.data_path.is_none());
    assert!(args.config_report.is_none());
}

#[test]
fn flags_set_settings_and_record_the_command_line() {
    let raw = strings(&[
        "panc-image-folder",
        "--data",
        "train",
        "--image-size",
        "32",
        "--matrix-models",
        "pann,centroid",
        "--dataset-config=cfg.json",
        "--report-out=out.html",
        "--panc-active-blocks",
        "0x3",
        "--config",
        "bench.json",
        "--search-artifact=best.json",
        "--elite",
        "6",
        "--mutation-rate",
        "0.35",
        "--evolve-top-k",
        "1,3,5",
        "--matrix-correction-modes",
        "ratio,patent_proportional",
    ]);
    let mut args = default_args("panc-image-folder".to_string());
    let mut sources = default_sources();
    assert_eq!(apply_cli_flags(&mut args, &raw, true, &mut sources), Ok(()));
    assert_eq!(args.data_path.as_deref(), Some("train"));
    assert_eq!((args.image_width, args.image_height), (32, 32));
    assert_eq!(args.matrix_models, vec![MatrixModel::Pann, MatrixModel::Centroid]);
    assert_eq!(args.dataset_config_path.as_deref(), Some("cfg.json"));
    assert_eq!(args.report_out_path.as_deref(), Some("out.html"));
    assert_eq!(args.panc_active_blocks, Some(3));
    assert_eq!(args.search_artifact_path, None);
    assert_eq!(args.evolution_elite_count, 6);
    assert_eq!(args.evolution_mutation_rate, "0.35");
    assert_eq!(args.evolution_top_k_values, vec![1, 3, 5]);
    assert_eq!(
        args.matrix_correction_modes,
        vec![CorrectionChoice::Ratio, CorrectionChoice::DifferencePatentProportional]
    );
    assert_eq!(sources.get("data_path"), Some(ConfigSource::Cli));
    assert_eq!(sources.get("image_width"), Some(ConfigSource::Cli));
    assert_eq!(sources.get("image_height"), Some(ConfigSource::Cli));
    assert_eq!(sources.get("evolution_elite_count"), Some(ConfigSource::Cli));
    assert_eq!(sources.get("epochs"), Some(ConfigSource::Default));
    assert_eq!(sources.get("dataset_config_path"), Some(ConfigSource::Cli));
}

#[test]
fn flags_are_refused_with_the_first_problem() {
    let mut args = default_args("x".to_string());
    let mut sources = default_sources();
    assert_eq!(
        apply_cli_flags(&mut args, &strings(&["--epochs"]), false, &mut sources),
        Err(ArgError::MissingValue("--epochs".to_string()))
    );
    assert_eq!(
        apply_cli_flags(&mut args, &strings(&["--epochs", "5", "--bogus"]), false, &mut sources),
        Err(ArgError::UnknownOption("--bogus".to_string()))
    );
    assert_eq!(args.epochs, 5);
    assert_eq!(
        apply_cli_flags(&mut args, &strings(&["cmd", "stray"]), true, &mut sources),
        Err(ArgError::UnexpectedArgument("stray".to_string()))
    );
    assert_eq!(
        apply_cli_flags(&mut args, &strings(&["--seed", "-4"]), false, &mut sources),
        Err(ArgError::InvalidNumber("-4".to_string(), NumberFault::InvalidDigit))
    );
    assert_eq!(
        apply_cli_flags(&mut args, &strings(&["--format", "yaml"]), false, &mut sources),
        Err(ArgError::InvalidFormat("yaml".to_string()))
    );
    assert_eq!(
        apply_cli_flags(&mut args, &strings(&["--image-width", "4294967296"]), false, &mut sources),
        Err(ArgError::InvalidNumber("4294967296".to_string(), NumberFault::TooLarge))
    );
    assert_eq!(args.image_width, 16);
    assert_eq!(
        apply_cli_flags(&mut args, &strings(&["--config"]), false, &mut sources),
        Ok(())
    );
}

#[test]
fn listed_config_fields_join_to_text() {
    let text = ConfigList::Text("a,b".to_string());
    assert_eq!(config_value_as_csv(&text, "matrix_models"), Ok("a,b".to_string()));
    let items = ConfigList::Items(vec![
        ConfigItem::Text("pann".to_string()),
        ConfigItem::Number("16".to_string()),
    ]);
    assert_eq!(config_value_as_csv(&items, "matrix_models"), Ok("pann,16".to_string()));
    let bad_item = ConfigList::Items(vec![
        ConfigItem::Text("pann".to_string()),
        ConfigItem::Other("true".to_string()),
        ConfigItem::Other("null".to_string()),
    ]);
    assert_eq!(
        config_value_as_csv(&bad_item, "matrix_models"),
        Err(ArgError::ConfigItemUnsupported("matrix_models".to_string(), "true".to_string()))
    );
    let other = ConfigList::Other("3".to_string());
    assert_eq!(
        config_value_as_csv(&other, "matrix_seeds"),
        Err(ArgError::ConfigNotList("matrix_seeds".to_string(), "3".to_string()))
    );
    assert_eq!(join_strings(&strings(&["a", "b", "c"]), "|"), "a|b|c");
    assert_eq!(join_strings(&strings(&[]), "|"), "");
}

#[test]
fn config_fields_apply_in_order_and_record_the_file() {
    let mut config = BenchConfig::default();
    config.format = Some("csv".to_string());
    config.epochs = Some(30);
    config.image_size = Some(64);
    config.image_height = Some(48);
    config.matrix_seeds = Some(ConfigList::Items(vec![
        ConfigItem::Number("1".to_string()),
        ConfigItem::Text("2".to_string()),
    ]));
    config.mutation_rate = Some("0.5".to_string());
    let mut args = default_args("image-matrix".to_string());
    let mut sources = default_sources();
    assert_eq!(apply_config(&mut args, &config, &mut sources), Ok(()));
    assert_eq!(args.format, OutputFormat::Csv);
    assert_eq!(args.epochs, 30);
    assert_eq!((args.image_width, args.image_height), (64, 48));
    assert_eq!(args.matrix_seeds, vec![1, 2]);
    assert_eq!(args.evolution_mutation_rate, "0.5");
    assert_eq!(sources.get("epochs"), Some(ConfigSource::Config));
    assert_eq!(sources.get("image_width"), Some(ConfigSource::Config));
    assert_eq!(sources.get("seed"), Some(ConfigSource::Default));

    let mut refused = BenchConfig::default();
    refused.epochs = Some(2);
    refused.debug_samples = Some("many".to_string());
    refused.threads = Some(8);
    let mut args = default_args("image-matrix".to_string());
    let mut sources = default_sources();
    assert_eq!(
        apply_config(&mut args, &refused, &mut sources),
        Err(ArgError::InvalidDebugSamples("many".to_string()))
    );
    assert_eq!(args.epochs, 2);
    assert_eq!(args.evolution_threads, 0);
}

#[test]
fn report_values_follow_the_settings() {
    let mut args = default_args("pann-iris".to_string());
    assert_eq!(config_report_value(&args, "command"), "pann-iris");
    assert_eq!(config_report_value(&args, "format"), "json");
    assert_eq!(config_report_value(&args, "data_path"), "<none>");
    assert_eq!(config_report_value(&args, "epochs"), "12");
    assert_eq!(config_report_value(&args, "correction_mode"), "difference_least_squares");
    assert_eq!(config_report_value(&args, "matrix_models"), "[]");
    assert_eq!(config_report_value(&args, "debug_samples"), "misclassified");
    assert_eq!(config_report_value(&args, "evolution_memory_penalty_per_mb"), "0.0001");
    assert_eq!(config_report_value(&args, "nonsense"), "<unknown>");
    args.matrix_image_sizes = vec![16, 32];
    args.matrix_models = vec![MatrixModel::Panc, MatrixModel::Pann];
    args.seed = 18446744073709551615;
    assert_eq!(config_report_value(&args, "matrix_image_sizes"), "16,32");
    assert_eq!(config_report_value(&args, "matrix_models"), "panc,pann");
    assert_eq!(config_report_value(&args, "seed"), "18446744073709551615");

    let mut sources = default_sources();
    progress_ai::cli::set_source(&mut sources, "seed", ConfigSource::Cli);
    let report = build_config_report("bench.json".to_string(), &args, &sources);
    assert_eq!(report.path, "bench.json");
    assert_eq!(report.entries.len(), 43);
    assert_eq!(report.entries[0].name, "command");
    assert_eq!(report.entries[10].name, "seed");
    assert_eq!(report.entries[10].value, "18446744073709551615");
    assert_eq!(report.entries[10].source, ConfigSource::Cli);
    assert_eq!(report.entries[7].source, ConfigSource::Default);
    assert_eq!(decimal_string(0), "0");
    assert_eq!(decimal_string(1200), "1200");
}

#[test]
fn labels_are_carried_over_by_class_name() {
    let source_names = strings(&["cat", "dog", "bird"]);
    let target_names = strings(&["dog", "bird", "cat", "dog"]);
    assert_eq!(
        remap_labels_by_class_name(&[0, 1, 2, 1], &source_names, &target_names),
        Ok(vec![2, 0, 1, 0])
    );
    assert_eq!(remap_labels_by_class_name(&[], &source_names, &target_names), Ok(vec![]));
    assert_eq!(
        remap_labels_by_class_name(&[0, 5, 7], &source_names, &target_names),
        Err(RemapError::MissingSourceClassName(5))
    );
    let fewer = strings(&["dog"]);
    assert_eq!(
        remap_labels_by_class_name(&[1, 0], &source_names, &fewer),
        Err(RemapError::UnknownClass("cat".to_string()))
    );
}

#[test]
fn command_line_overrides_configuration_which_overrides_defaults() {
    let mut config = BenchConfig::default();
    config.epochs = Some(30);
    config.format = Some("csv".to_string());
    let raw = strings(&["train-pann-image-folder", "--epochs", "7"]);
    let args = resolve_args(&raw, Some(&config), Some("bench.json".to_string()), None).unwrap();
    assert_eq!(args.command, "train-pann-image-folder");
    assert_eq!(args.epochs, 7);
    assert_eq!(args.format, OutputFormat::Csv);
    assert_eq!(args.intervals, 8);
    let report = args.config_report.as_ref().unwrap();
    assert_eq!(report.path, "bench.json");
    let epochs = report.entries.iter().find(|entry| entry.name == "epochs").unwrap();
    assert_eq!((epochs.value.as_str(), epochs.source), ("7", ConfigSource::Cli));
    let format = report.entries.iter().find(|entry| entry.name == "format").unwrap();
    assert_eq!((format.value.as_str(), format.source), ("csv", ConfigSource::Config));
    let intervals = report.entries.iter().find(|entry| entry.name == "intervals").unwrap();
    assert_eq!((intervals.value.as_str(), intervals.source), ("8", ConfigSource::Default));
    let command = report.entries.iter().find(|entry| entry.name == "command").unwrap();
    assert_eq!(command.source, ConfigSource::Cli);
}

#[test]
fn the_command_may_come_from_the_configuration() {
    let mut config = BenchConfig::default();
    config.command = Some("panc-iris".to_string());
    let args = resolve_args(&strings(&["--seed", "9"]), Some(&config), None, None).unwrap();
    assert_eq!(args.command, "panc-iris");
    assert_eq!(args.seed, 9);
    assert!(args.config_report.is_none());
    assert_eq!(resolve_args(&strings(&["--seed", "9"]), None, None, None).err(), Some(ArgError::MissingCommand));
    let with_artifact =
        resolve_args(&strings(&["pann-iris", "--search-artifact", "best.json"]), None, None, None)
            .unwrap();
    assert_eq!(
        with_artifact.config_report.map(|report| report.path),
        Some("search artifact: best.json".to_string())
    );
}

#[test]
fn readme_training_command_line() {
    let raw = strings(&[
        "train-pann-image-folder",
        "--data",
        "C:\\path\\to\\train",
        "--out",
        "models\\model.json",
        "--report-out",
        "reports\\train-report.json",
        "--image-size",
        "64",
        "--image-features",
        "rich-texture",
        "--image-resize",
        "center-crop",
        "--epochs",
        "12",
        "--intervals",
        "8",
        "--format",
        "json",
    ]);
    let args = resolve_args(&raw, None, None, None).unwrap();
    assert_eq!(args.command, "train-pann-image-folder");
    assert_eq!(args.data_path.as_deref(), Some("C:\\path\\to\\train"));
    assert_eq!(args.out_path.as_deref(), Some("models\\model.json"));
    assert_eq!(args.report_out_path.as_deref(), Some("reports\\train-report.json"));
    assert_eq!((args.image_width, args.image_height), (64, 64));
    assert_eq!(args.image_features, "rich-texture");
    assert_eq!(args.image_resize, "center-crop");
    assert_eq!((args.epochs, args.intervals), (12, 8));
    assert_eq!(args.format, OutputFormat::Json);
}

#[test]
fn reported_numbers_read_back() {
    for n in [0u64, 7, 10, 99, 4096, 18446744073709551615] {
        assert_eq!(parse_unsigned_text(&decimal_string(n), 10, u64::MAX), Ok(n));
    }
}

#[test]
fn search_choices_are_distinct_positive_and_never_empty() {
    assert_eq!(distinct_u64(&vec![3, 1, 3, 2, 1]), vec![3, 1, 2]);
    assert_eq!(choose_positive(&vec![], 16), vec![16]);
    assert_eq!(choose_positive(&vec![0, 32, 0, 32, 64], 16), vec![32, 64]);
    assert_eq!(choose_positive(&vec![0, 0], 160), vec![160]);
    assert_eq!(choose_top_k(&vec![], &vec![1]), vec![1]);
    assert_eq!(choose_top_k(&vec![0, 3, 1, 3], &vec![1]), vec![1, 3]);
    assert_eq!(choose_top_k(&vec![], &vec![1, 3, 5, 7]), vec![1, 3, 5, 7]);
}

#[test]
fn evolution_counts_are_normalized_once() {
    let raw = EvolutionCounts { population_size: 1, generations: 0, elite_count: 9, seed: 5, threads: 0 };
    let once = raw.normalized(16);
    assert_eq!(
        once,
        EvolutionCounts { population_size: 2, generations: 1, elite_count: 1, seed: 5, threads: 2 }
    );
    assert_eq!(once.normalized(1), once);
    let wide = EvolutionCounts { population_size: 32, generations: 20, elite_count: 0, seed: 1, threads: 0 };
    assert_eq!(
        wide.normalized(8),
        EvolutionCounts { population_size: 32, generations: 20, elite_count: 1, seed: 1, threads: 8 }
    );
    let many_threads = EvolutionCounts { threads: 100, ..wide };
    assert_eq!(many_threads.normalized(8).threads, 32);
}

#[test]
fn classes_are_labelled_in_order_of_first_appearance() {
    let species = strings(&["setosa", "versicolor", "setosa", "virginica", "versicolor"]);
    let (labels, classes) = label_classes(&species);
    assert_eq!(labels, vec![0, 1, 0, 2, 1]);
    assert_eq!(classes, strings(&["setosa", "versicolor", "virginica"]));
    let (none, no_classes) = label_classes(&[]);
    assert!(none.is_empty() && no_classes.is_empty());
}

#[test]
fn embedding_columns_are_told_apart_by_header() {
    let columns = embedding_columns(&strings(&["f0", " Image_Path ", "f1", "CLASS", "label"])).unwrap();
    assert_eq!(columns.label, 3);
    assert_eq!(columns.path, Some(1));
    assert_eq!(columns.features, vec![0, 2, 4]);

    let no_path = embedding_columns(&strings(&["target", "x"])).unwrap();
    assert_eq!(no_path.label, 0);
    assert_eq!(no_path.path, None);
    assert_eq!(no_path.features, vec![1]);

    assert_eq!(
        embedding_columns(&strings(&["x", "y"])).err(),
        Some(EmbeddingColumnsError::MissingLabelColumn)
    );
    let only_label = embedding_columns(&strings(&["label", "file"])).err().unwrap();
    assert_eq!(only_label, EmbeddingColumnsError::MissingFeatureColumns);
    assert_eq!(only_label.message(), "embedding CSV needs at least one feature column");
}

#[test]
fn shuffled_split_follows_the_seed_and_keeps_every_sample() {
    let (test, train) = shuffled_split(10, 3, 7);
    assert_eq!(shuffled_split(10, 3, 7), (test.clone(), train.clone()));
    assert_eq!(test.len(), 3);
    assert_eq!(train.len(), 7);
    let mut all: Vec<usize> = test.iter().chain(train.iter()).copied().collect();
    // The positions are shuffled, not taken in order.
    assert_ne!(all, (0..10).collect::<Vec<_>>());
    all.sort();
    assert_eq!(all, (0..10).collect::<Vec<_>>());
    let (everything, nothing) = shuffled_split(4, 9, 1);
    assert_eq!(everything.len(), 4);
    assert!(nothing.is_empty());
}

#[test]
fn required_paths_come_from_the_settings() {
    let mut args = default_args("eval-pann".to_string());
    assert_eq!(required_data_path(&args), Err(MissingPath::Data));
    assert_eq!(required_dataset_config_path(&args), Err(MissingPath::DatasetConfig));
    assert_eq!(required_out_path(&args), Err(MissingPath::Out));
    assert_eq!(required_model_path(&args), Err(MissingPath::Model));
    assert_eq!(required_image_path(&args), Err(MissingPath::Image));
    assert_eq!(
        MissingPath::Model.message(),
        "--model path is required for artifact eval/predict commands"
    );
    args.data_path = Some("train".to_string());
    assert_eq!(required_data_path(&args), Ok("train".to_string()));
    // The dataset configuration falls back to the data path.
    assert_eq!(required_dataset_config_path(&args), Ok("train".to_string()));
    args.dataset_config_path = Some("mvtec.json".to_string());
    assert_eq!(required_dataset_config_path(&args), Ok("mvtec.json".to_string()));
    args.model_path = Some("model.json".to_string());
    assert_eq!(required_model_path(&args), Ok("model.json".to_string()));
}

#[test]
fn image_mode_names_are_checked() {
    let mut args = default_args("image-matrix".to_string());
    let mut sources = default_sources();
    assert_eq!(
        apply_cli_flags(&mut args, &strings(&["--image-features", "sparkle"]), false, &mut sources),
        Err(ArgError::InvalidImageFeatures("sparkle".to_string()))
    );
    assert_eq!(
        apply_cli_flags(&mut args, &strings(&["--image-resize", "squash"]), false, &mut sources),
        Err(ArgError::InvalidImageResize("squash".to_string()))
    );
    assert_eq!(
        apply_cli_flags(
            &mut args,
            &strings(&["--matrix-features", "rich, bogus ,pixels"]),
            false,
            &mut sources
        ),
        Err(ArgError::InvalidImageFeatures("bogus".to_string()))
    );
    assert_eq!(
        apply_cli_flags(
            &mut args,
            &strings(&[
                "--image-features",
                "rich-texture",
                "--image-resize",
                "center-crop",
                "--evolve-resize-modes",
                "letterbox,foreground-crop",
            ]),
            false,
            &mut sources
        ),
        Ok(())
    );
    assert_eq!(args.image_features, "rich-texture");
    assert_eq!(args.image_resize, "center-crop");
    assert_eq!(args.evolution_resize_modes, strings(&["letterbox", "foreground-crop"]));
}

#[test]
fn search_artifact_named_inline_is_recorded_from_the_command_line() {
    let raw = strings(&["pann-iris", "--search-artifact=best.json", "--seed", "3"]);
    let found = find_search_artifact_path(&raw).unwrap();
    assert_eq!(found, Some("best.json".to_string()));
    let args = resolve_args(&raw, None, None, found).unwrap();
    assert_eq!(args.search_artifact_path, Some("best.json".to_string()));
    assert_eq!(args.seed, 3);
    assert_eq!(
        args.config_report.map(|report| report.path),
        Some("search artifact: best.json".to_string())
    );
    assert_eq!(
        find_search_artifact_path(&strings(&["x", "--search-artifact.location=a", "--search-artifact", "b"])),
        Ok(Some("b".to_string()))
    );
    assert_eq!(
        find_search_artifact_path(&strings(&["x", "--search-artifact"])),
        Err(ArgError::MissingValue("--search-artifact".to_string()))
    );
    assert_eq!(find_search_artifact_path(&strings(&["x"])), Ok(None));
}

#[test]
fn split_is_deterministic_for_seed() {
    // Four samples with labels [0, 1, 0, 1], test ratio 0.5 (two test
    // samples), seed 7.
    let labels = vec![0, 1, 0, 1];
    let test_count = (4.0f64 * 0.5).round() as usize;
    let left = shuffled_split(4, test_count, 7);
    let right = shuffled_split(4, test_count, 7);
    assert_eq!(left, right);
    let (test, train) = left;
    assert_eq!(test.len(), 2);
    let test_labels = collect_labels(&labels, &test);
    assert_eq!(test_labels.len(), 2);
    assert!(test_labels.iter().all(|label| *label < 2));
    let mut all: Vec<usize> = test.iter().chain(train.iter()).copied().collect();
    all.sort();
    assert_eq!(all, vec![0, 1, 2, 3]);
}

#[test]
fn float_settings_must_be_numbers() {
    for good in ["0.5", "-1", "+.5", "1.", "2e-3", "1E10", "inf", "-Infinity", "NaN", "007"] {
        assert!(is_float_syntax(good), "{good}");
    }
    for bad in ["", ".", "+", "1e", "1e+", "abc", " 1", "1 ", "1.2.3", "e5", "infinite", "0x10"] {
        assert!(!is_float_syntax(bad), "{bad}");
    }
    for text in ["0.5", "-1", "+.5", "1.", "2e-3", "inf", "NaN"] {
        assert_eq!(text.parse::<f64>().is_ok(), is_float_syntax(text));
    }
    let mut args = default_args("panc-iris".to_string());
    let mut sources = default_sources();
    assert_eq!(
        apply_cli_flags(&mut args, &strings(&["--panc-threshold", "half"]), false, &mut sources),
        Err(ArgError::InvalidFloat("half".to_string()))
    );
    assert_eq!(
        apply_cli_flags(&mut args, &strings(&["--target-mse", "0.01"]), false, &mut sources),
        Ok(())
    );
    assert_eq!(args.target_mse, Some("0.01".to_string()));
}
