use ternary_cli::classify::ClassifyCmd;

#[test]
fn parse_requires_file() {
    let result = ClassifyCmd::parse(&[]);
    assert!(result.is_err());
}

use ternary_cli::classify::{classify_profile, row_fields, Strategy, ValueProfile};

fn strategy_of(values: &[f64]) -> Strategy {
    if values.is_empty() {
        return classify_profile(&ValueProfile {
            len: 0, positive: 0, negative: 0, zero: 0,
            variance_below_half: false, variance_above_one: false,
        });
    }
    let mean = values.iter().sum::<f64>() / values.len() as f64;
    let variance = values.iter().map(|&v| (v - mean).powi(2)).sum::<f64>() / values.len() as f64;
    classify_profile(&ValueProfile {
        len: values.len(),
        positive: values.iter().filter(|&&v| v > 0.0).count(),
        negative: values.iter().filter(|&&v| v < 0.0).count(),
        zero: values.iter().filter(|&&v| v == 0.0).count(),
        variance_below_half: variance < 0.5,
        variance_above_one: variance > 1.0,
    })
}

#[test]
fn classify_cooperative() {
    let vals = vec![1.0, 1.0, 1.0, 1.0, 0.8];
    assert_eq!(strategy_of(&vals), Strategy::Cooperative);
}

#[test]
fn classify_defective() {
    let vals = vec![-1.0, -1.0, -1.0, -0.9, -1.0];
    assert_eq!(strategy_of(&vals), Strategy::Defective);
}

#[test]
fn classify_ternary() {
    let vals = vec![1.0, -1.0, 0.0, 1.0, -1.0, 0.0, 1.0, 0.0, -1.0, 0.0];
    assert_eq!(strategy_of(&vals), Strategy::Ternary);
}

#[test]
fn classify_random() {
    let vals = vec![10.0, -10.0, 5.0, -5.0];
    assert_eq!(strategy_of(&vals), Strategy::Random);
}

#[test]
fn classify_empty() {
    assert_eq!(strategy_of(&[]), Strategy::Unknown("empty".into()));
}

#[test]
fn classify_tit_for_tat_and_mixed() {
    // Alternating with low variance: 0.5 positive, 0.5 negative.
    let vals = vec![0.5, -0.5, 0.5, -0.5];
    assert_eq!(strategy_of(&vals), Strategy::TitForTat);
    // Neither pattern: mostly zero, low variance.
    let vals = vec![0.0, 0.0, 0.0, 0.1];
    assert_eq!(strategy_of(&vals), Strategy::Unknown("mixed".into()));
}

#[test]
fn shares_are_strict() {
    // Exactly 70% positive is not "more than 70%".
    let p = ValueProfile { len: 10, positive: 7, negative: 3, zero: 0, variance_below_half: false, variance_above_one: false };
    assert_eq!(classify_profile(&p), Strategy::Unknown("mixed".into()));
    let p = ValueProfile { len: 10, positive: 8, negative: 2, zero: 0, variance_below_half: false, variance_above_one: false };
    assert_eq!(classify_profile(&p), Strategy::Cooperative);
}

#[test]
fn strategy_names() {
    assert_eq!(Strategy::TitForTat.to_string(), "Tit-for-Tat");
    assert_eq!(Strategy::Cooperative.to_string(), "Cooperative");
    assert_eq!(Strategy::Unknown("empty".into()).to_string(), "Unknown(empty)");
}

#[test]
fn classify_parse_file_and_format() {
    let args: Vec<String> = vec!["data.tsv".into(), "--format".into(), "tsv".into()];
    let refs: Vec<&String> = args.iter().collect();
    let cmd = ClassifyCmd::parse(&refs).unwrap();
    assert_eq!(cmd.input_file, "data.tsv");
    assert_eq!(cmd.format, "tsv");
    let args: Vec<String> = vec!["a.csv".into(), "b.csv".into()];
    let refs: Vec<&String> = args.iter().collect();
    assert_eq!(ClassifyCmd::parse(&refs).err(), Some("classify: unknown option 'b.csv'".to_string()));
}

fn parse_row(row: &str, _format: &str) -> Vec<f64> {
    row_fields(row).iter().filter_map(|s| s.trim().parse::<f64>().ok()).collect()
}

#[test]
fn parse_row_csv() {
    let row = "1.0, -1.0, 0.0, 0.5";
    let vals = parse_row(row, "csv");
    assert_eq!(vals, vec![1.0, -1.0, 0.0, 0.5]);
}

#[test]
fn row_fields_cut_at_commas_and_white_space() {
    assert_eq!(row_fields("1.0, -1.0"), vec!["1.0", "", "-1.0"]);
    assert_eq!(row_fields("a\tb\u{2003}c,"), vec!["a", "b", "c", ""]);
    assert_eq!(row_fields(""), vec![""]);
}
