use progress_ai::cli::{
    config_report_lines, default_sources, find_config_path, list_string, matrix_model_name,
    next_value, option_string, output_format_name, parse_debug_samples, parse_format,
    parse_matrix_models, report_fields, set_source, skip_config_flag, ArgError, ConfigReport,
    ConfigReportEntry, ConfigSource, DebugSamples, MatrixModel, OutputFormat, SourceMap,
};
use progress_ai::text::split_csv_values;

fn args(values: &[&str]) -> Vec<String> {
    values.iter().map(|value| value.to_string()).collect()
}

#[test]
fn debug_sample_names_round_trip() {
    for samples in [DebugSamples::Misclassified, DebugSamples::All, DebugSamples::Correct] {
        assert_eq!(parse_debug_samples(samples.as_str()), Ok(samples));
    }
    assert_eq!(parse_debug_samples("wrong"), Ok(DebugSamples::Misclassified));
    assert_eq!(parse_debug_samples("errors"), Ok(DebugSamples::Misclassified));
    assert_eq!(
        parse_debug_samples("some"),
        Err(ArgError::InvalidDebugSamples("some".to_string()))
    );
}

#[test]
fn formats_round_trip() {
    for format in [OutputFormat::Json, OutputFormat::Csv] {
        assert_eq!(parse_format(output_format_name(format)), Ok(format));
    }
    assert_eq!(parse_format("xml"), Err(ArgError::InvalidFormat("xml".to_string())));
    assert_eq!(parse_format("JSON"), Err(ArgError::InvalidFormat("JSON".to_string())));
}

#[test]
fn matrix_models_parse_aliases_in_order() {
    assert_eq!(
        parse_matrix_models(" pann, panc-like,,baseline "),
        Ok(vec![MatrixModel::Pann, MatrixModel::Panc, MatrixModel::Centroid])
    );
    assert_eq!(parse_matrix_models(""), Ok(vec![]));
    assert_eq!(
        parse_matrix_models("pann,knn,other"),
        Err(ArgError::InvalidMatrixModel("knn".to_string()))
    );
    for model in [MatrixModel::Pann, MatrixModel::Panc, MatrixModel::Centroid] {
        assert_eq!(parse_matrix_models(matrix_model_name(model)), Ok(vec![model]));
    }
}

#[test]
fn csv_values_are_trimmed_and_nonempty() {
    assert_eq!(split_csv_values(" 16, 32 ,,\t64\n"), vec!["16", "32", "64"]);
    assert_eq!(split_csv_values(""), Vec::<String>::new());
    assert_eq!(split_csv_values(",,"), Vec::<String>::new());
    assert_eq!(split_csv_values("a b , c"), vec!["a b", "c"]);
    for value in split_csv_values(" x ,\u{3000}y\u{3000}, z") {
        assert!(!value.is_empty());
        assert_eq!(value.trim(), value);
    }
}

#[test]
fn config_path_last_flag_wins() {
    assert_eq!(find_config_path(&args(&["run", "--epochs", "3"])), Ok(None));
    assert_eq!(
        find_config_path(&args(&["--config", "a.json", "--config=b.json"])),
        Ok(Some("b.json".to_string()))
    );
    assert_eq!(
        find_config_path(&args(&["--config.location=c.json", "--config-location", "d.json"])),
        Ok(Some("d.json".to_string()))
    );
    assert_eq!(
        find_config_path(&args(&["run", "--config"])),
        Err(ArgError::MissingValue("--config".to_string()))
    );
}

#[test]
fn config_flags_are_skipped() {
    let raw = args(&["--config=x", "--config", "y", "--format", "csv"]);
    let mut index = 0;
    assert!(skip_config_flag(&raw, &mut index));
    assert_eq!(index, 1);
    assert!(skip_config_flag(&raw, &mut index));
    assert_eq!(index, 3);
    assert!(!skip_config_flag(&raw, &mut index));
    assert_eq!(index, 3);
    assert_eq!(next_value(&raw, &mut index, "--format"), Ok("csv".to_string()));
    assert_eq!(index, 4);
    assert_eq!(
        next_value(&raw, &mut index, "--format"),
        Err(ArgError::MissingValue("--format".to_string()))
    );
    assert_eq!(index, 5);
}

#[test]
fn sources_default_then_record_overrides() {
    let mut sources = default_sources();
    let fields = report_fields();
    assert_eq!(fields.len(), 43);
    for field in &fields {
        assert_eq!(sources.get(field), Some(ConfigSource::Default));
    }
    assert_eq!(sources.get("not_a_field"), None);
    set_source(&mut sources, "epochs", ConfigSource::Cli);
    set_source(&mut sources, "epochs", ConfigSource::Config);
    assert_eq!(sources.get("epochs"), Some(ConfigSource::Config));
    assert_eq!(sources.get("seed"), Some(ConfigSource::Default));
    let mut fresh = SourceMap::new();
    set_source(&mut fresh, "command", ConfigSource::Cli);
    assert_eq!(fresh.get("command"), Some(ConfigSource::Cli));
    assert_eq!(ConfigSource::Cli.as_str(), "cli");
    assert_eq!(ConfigSource::Config.as_str(), "config");
    assert_eq!(ConfigSource::Default.as_str(), "default");
}

#[test]
fn report_lines_pad_names_and_sources() {
    let report = ConfigReport {
        path: "bench.json".to_string(),
        entries: vec![
            ConfigReportEntry { name: "epochs", value: "12".to_string(), source: ConfigSource::Cli },
            ConfigReportEntry {
                name: "a_name_that_is_longer_than_thirty_four_chars",
                value: "x".to_string(),
                source: ConfigSource::Default,
            },
        ],
    };
    let lines = config_report_lines(&report);
    assert_eq!(lines.len(), 4);
    assert_eq!(lines[0], "Loaded config: bench.json");
    assert_eq!(lines[1], "Parameter sources (CLI overrides config, config overrides defaults):");
    assert_eq!(lines[2], format!("  {:34} {:8} {}", "epochs", "cli", "12"));
    assert_eq!(
        lines[3],
        format!("  {:34} {:8} {}", "a_name_that_is_longer_than_thirty_four_chars", "default", "x")
    );
}

#[test]
fn option_and_list_strings() {
    assert_eq!(option_string(&None), "<none>");
    assert_eq!(option_string(&Some("p".to_string())), "p");
    assert_eq!(list_string(&[]), "[]");
    assert_eq!(list_string(&args(&["a", "b", "c"])), "a,b,c");
}
