use ternary_cli::cli::{parse, Command, Subcommand};
use ternary_cli::options::FloatArg;

fn facts(args: &[String]) -> Vec<FloatArg> {
    args.iter()
        .map(|a| match a.parse::<f64>() {
            Err(e) => FloatArg::Unparsable(e.to_string()),
            Ok(v) => FloatArg::Parsed { in_unit: 0.0 <= v && v <= 1.0, at_most_zero: v <= 0.0 },
        })
        .collect()
}

fn strings(xs: &[&str]) -> Vec<String> {
    xs.iter().map(|s| s.to_string()).collect()
}

#[test]
fn cli_rejects_empty_argument_list() {
    let args: Vec<String> = vec![];
    assert_eq!(parse(&args, &facts(&args)).err(), Some("no arguments provided".to_string()));
}

#[test]
fn cli_without_subcommand_shows_help() {
    let args = strings(&["ternary"]);
    let cli = parse(&args, &facts(&args)).unwrap();
    assert!(cli.show_help);
    assert!(!cli.show_version);
    assert!(matches!(cli.command, Command::Help));
}

#[test]
fn cli_version_wins_over_everything() {
    let args = strings(&["ternary", "evolve", "--bogus", "-V", "--help"]);
    let cli = parse(&args, &facts(&args)).unwrap();
    assert!(cli.show_version);
    assert!(!cli.show_help);
    assert!(cli.config_path.is_none());
}

#[test]
fn cli_help_flag_anywhere() {
    let args = strings(&["ternary", "benchmark", "-h"]);
    let cli = parse(&args, &facts(&args)).unwrap();
    assert!(cli.show_help);
}

#[test]
fn cli_unknown_subcommand() {
    let args = strings(&["ternary", "dance"]);
    assert_eq!(parse(&args, &facts(&args)).err(), Some("unknown subcommand: 'dance'".to_string()));
}

#[test]
fn cli_config_path_and_subcommand() {
    let args = strings(&["ternary", "--config", "my.toml", "benchmark", "-n", "7"]);
    let cli = parse(&args, &facts(&args)).unwrap();
    assert_eq!(cli.config_path, Some("my.toml".to_string()));
    match cli.command {
        Command::Benchmark(b) => {
            assert_eq!(b.iterations, 7);
            assert_eq!(b.strategy, "all");
        }
        _ => panic!("expected benchmark"),
    }
}

#[test]
fn cli_help_flags_are_global() {
    // `--help` and `-h` after a subcommand are taken as the global flag, so
    // `-h` never reaches `visualize` as its height option.
    let args = strings(&["ternary", "visualize", "--help"]);
    let cli = parse(&args, &facts(&args)).unwrap();
    assert!(cli.show_help);
    assert!(matches!(cli.command, Command::Help));
    let args = strings(&["ternary", "visualize", "-h", "30"]);
    let cli = parse(&args, &facts(&args)).unwrap();
    assert!(cli.show_help);
    assert!(!matches!(cli.command, Command::SubcommandHelp(Subcommand::Visualize)));
}

#[test]
fn cli_evolve_with_rate() {
    let args = strings(&["ternary", "evolve", "-m", "0.5", "-g", "3"]);
    let cli = parse(&args, &facts(&args)).unwrap();
    match cli.command {
        Command::Evolve(e) => {
            assert_eq!(e.generations, 3);
            assert_eq!(e.mutation_rate, "0.5");
            assert_eq!(e.population, 100);
            assert_eq!(e.seed, None);
        }
        _ => panic!("expected evolve"),
    }
}

#[test]
fn cli_subcommand_errors_pass_through() {
    let args = strings(&["ternary", "verify", "--tolerance", "-1"]);
    assert_eq!(parse(&args, &facts(&args)).err(), Some("tolerance must be > 0".to_string()));
    let args = strings(&["ternary", "classify"]);
    assert_eq!(parse(&args, &facts(&args)).err(), Some("classify: input file required".to_string()));
}

#[test]
fn cli_config_words_are_taken_out_before_the_subcommand_reads() {
    let args = strings(&["ternary", "evolve", "--config", "a.toml", "-m", "NaN"]);
    assert_eq!(parse(&args, &facts(&args)).err(), Some("mutation-rate must be in [0, 1]".to_string()));
    let args = strings(&["ternary", "--config", "a.toml", "verify", "--config", "b.toml", "--scales", "6"]);
    let cli = parse(&args, &facts(&args)).unwrap();
    assert_eq!(cli.config_path, Some("b.toml".to_string()));
    assert!(!cli.show_help && !cli.show_version);
    match cli.command {
        Command::Verify(cmd) => assert_eq!(cmd.scales, vec![6]),
        _ => panic!("expected the verify command"),
    }
    let args = strings(&["ternary", "--config", "a.toml"]);
    let cli = parse(&args, &facts(&args)).unwrap();
    assert!(cli.show_help);
    assert!(matches!(cli.command, Command::Help));
}
