use ternary_cli::benchmark::{bencher_add, bencher_multiply, workloads, BenchmarkCmd, Workload};

#[test]
fn benchmark_parse_defaults() {
    let cmd = BenchmarkCmd::parse(&[]).unwrap();
    assert_eq!(cmd.iterations, 10000);
    assert_eq!(cmd.strategy, "all");
}

#[test]
fn benchmark_parse_custom() {
    let args: Vec<String> = vec![
        "--iterations".into(), "5000".into(),
        "--strategy".into(), "add".into(),
    ];
    let refs: Vec<&String> = args.iter().collect();
    let cmd = BenchmarkCmd::parse(&refs).unwrap();
    assert_eq!(cmd.iterations, 5000);
    assert_eq!(cmd.strategy, "add");
}

#[test]
fn reject_zero_iterations() {
    let args: Vec<String> = vec!["--iterations".into(), "0".into()];
    let refs: Vec<&String> = args.iter().collect();
    assert!(BenchmarkCmd::parse(&refs).is_err());
}

#[test]
fn benchers_report_their_operation_count() {
    assert_eq!(bencher_add(100), 100);
    assert_eq!(bencher_multiply(7), 7);
    assert_eq!(bencher_add(0), 0);
}

use ternary_cli::options::Parsed;

#[test]
fn benchmark_help_and_errors() {
    let args: Vec<String> = vec!["-s".into(), "add".into(), "-h".into()];
    let refs: Vec<&String> = args.iter().collect();
    assert!(matches!(BenchmarkCmd::parse_with_help(&refs), Ok(Parsed::Help)));
    let args: Vec<String> = vec!["-n".into(), "-5".into()];
    let refs: Vec<&String> = args.iter().collect();
    assert_eq!(BenchmarkCmd::parse(&refs).err(), Some("invalid iterations: invalid digit found in string".to_string()));
    let args: Vec<String> = vec!["--iterations".into(), "0".into()];
    let refs: Vec<&String> = args.iter().collect();
    assert_eq!(BenchmarkCmd::parse(&refs).err(), Some("iterations must be > 0".to_string()));
    let args: Vec<String> = vec!["--strategy".into()];
    let refs: Vec<&String> = args.iter().collect();
    assert_eq!(BenchmarkCmd::parse(&refs).err(), Some("--strategy requires a value".to_string()));
}

#[test]
fn strategy_selects_workloads() {
    assert_eq!(workloads("add"), vec![Workload::Add]);
    assert_eq!(workloads("mul"), vec![Workload::Multiply]);
    let all = vec![Workload::Add, Workload::Multiply, Workload::Classify, Workload::Conservation];
    assert_eq!(workloads("all"), all);
    assert_eq!(workloads("other"), all);
}
