use ternary_cli::evolve::{gene_from_draw, genome_fitness, simulate, EvolveCmd, SimpleRng};
use ternary_cli::options::FloatArg;

fn facts(args: &[String]) -> Vec<FloatArg> {
    args.iter()
        .map(|a| match a.parse::<f64>() {
            Err(e) => FloatArg::Unparsable(e.to_string()),
            Ok(v) => FloatArg::Parsed { in_unit: 0.0 <= v && v <= 1.0, at_most_zero: v <= 0.0 },
        })
        .collect()
}

fn parse(args: &[String]) -> Result<EvolveCmd, String> {
    let refs: Vec<&String> = args.iter().collect();
    EvolveCmd::parse(&refs, &facts(args))
}

#[test]
fn evolve_parse_defaults() {
    let cmd = parse(&[]).unwrap();
    assert_eq!(cmd.generations, 1000);
    assert_eq!(cmd.population, 100);
    assert!((cmd.mutation_rate.parse::<f64>().unwrap() - 0.02).abs() < 1e-9);
}

#[test]
fn evolve_parse_custom() {
    let args: Vec<String> = vec![
        "--generations".into(), "500".into(),
        "--population".into(), "50".into(),
        "--mutation-rate".into(), "0.1".into(),
        "--seed".into(), "12345".into(),
    ];
    let cmd = parse(&args).unwrap();
    assert_eq!(cmd.generations, 500);
    assert_eq!(cmd.population, 50);
    assert!((cmd.mutation_rate.parse::<f64>().unwrap() - 0.1).abs() < 1e-9);
    assert_eq!(cmd.seed, Some(12345));
}

#[test]
fn reject_zero_generations() {
    let args: Vec<String> = vec!["--generations".into(), "0".into()];
    assert!(parse(&args).is_err());
}

#[test]
fn reject_bad_mutation_rate() {
    let args: Vec<String> = vec!["--mutation-rate".into(), "1.5".into()];
    assert!(parse(&args).is_err());
}

#[test]
fn evolve_parse_error_messages() {
    let args: Vec<String> = vec!["--mutation-rate".into(), "1.5".into()];
    assert_eq!(parse(&args).err(), Some("mutation-rate must be in [0, 1]".to_string()));
    let args: Vec<String> = vec!["-m".into(), "abc".into()];
    assert_eq!(parse(&args).err(), Some("invalid mutation-rate: invalid float literal".to_string()));
    let args: Vec<String> = vec!["-p".into(), "0".into()];
    assert_eq!(parse(&args).err(), Some("population must be > 0".to_string()));
    let args: Vec<String> = vec!["-s".into(), "x".into()];
    assert_eq!(parse(&args).err(), Some("invalid seed: invalid digit found in string".to_string()));
    let args: Vec<String> = vec!["-g".into()];
    assert_eq!(parse(&args).err(), Some("--generations requires a value".to_string()));
    let args: Vec<String> = vec!["--fast".into()];
    assert_eq!(parse(&args).err(), Some("evolve: unknown option '--fast'".to_string()));
}

#[test]
fn evolve_help_request() {
    let args: Vec<String> = vec!["-g".into(), "5".into(), "--help".into(), "--bogus".into()];
    let refs: Vec<&String> = args.iter().collect();
    assert!(matches!(EvolveCmd::parse_with_help(&refs, &facts(&args)), Ok(None)));
}

#[test]
fn rng_seed_zero_starts_at_one() {
    assert_eq!(SimpleRng::new(0).state, 1);
    assert_eq!(SimpleRng::new(7).state, 7);
}

#[test]
fn rng_follows_the_lcg() {
    let mut rng = SimpleRng::new(1);
    let r = rng.next();
    assert_eq!(r, 6364136223846793005u64.wrapping_mul(1).wrapping_add(1442695040888963407));
    assert_eq!(rng.state, r);
    let r2 = rng.next();
    assert_eq!(r2, r.wrapping_mul(6364136223846793005).wrapping_add(1442695040888963407));
}

#[test]
fn genes_are_ternary() {
    assert_eq!(gene_from_draw(0), -1);
    assert_eq!(gene_from_draw(1), 0);
    assert_eq!(gene_from_draw(2), 1);
    // 255 reads as the signed byte -1, whose remainder modulo 3 is 2.
    assert_eq!(gene_from_draw(255), 1);
    // 128 reads as -128, whose remainder modulo 3 is 1.
    assert_eq!(gene_from_draw(128), 0);
    for r in 0..2000u64 {
        let g = gene_from_draw(r.wrapping_mul(2654435761));
        assert!((-1..=1).contains(&g));
    }
}

#[test]
fn run_short_experiment() {
    let report = simulate(10, 5, u64::MAX / 10, Some(42));
    assert!(report.best_fitness <= 32);
    assert!(report.best_generation >= 1 && report.best_generation <= 10);
    assert_eq!(report.snapshots.len(), 10);
    assert_eq!(report.snapshots[9].generation, 10);
    assert_eq!(report.snapshots[9].best_fitness, report.best_fitness);
}

#[test]
fn evolution_is_reproducible() {
    let a = simulate(40, 8, u64::MAX / 50, Some(12345));
    let b = simulate(40, 8, u64::MAX / 50, Some(12345));
    assert_eq!(a.best_fitness, b.best_fitness);
    assert_eq!(a.best_generation, b.best_generation);
    assert_eq!(a.snapshots, b.snapshots);
    let c = simulate(40, 8, u64::MAX / 50, Some(0));
    let d = simulate(40, 8, u64::MAX / 50, Some(1));
    assert_eq!(c.snapshots, d.snapshots);
    let e = simulate(40, 8, u64::MAX / 50, None);
    let f = simulate(40, 8, u64::MAX / 50, Some(42));
    assert_eq!(e.snapshots, f.snapshots);
}

#[test]
fn progress_is_shown_every_twentieth() {
    let report = simulate(100, 3, 0, Some(9));
    let gens: Vec<u64> = report.snapshots.iter().map(|s| s.generation).collect();
    assert_eq!(gens, vec![5, 10, 15, 20, 25, 30, 35, 40, 45, 50, 55, 60, 65, 70, 75, 80, 85, 90, 95, 100]);
    for w in report.snapshots.windows(2) {
        assert!(w[0].best_fitness <= w[1].best_fitness);
    }
}

#[test]
fn fitness_counts_decisive_genes() {
    let decisive: Vec<i8> = (0..32).map(|i| if i % 2 == 0 { 1 } else { -1 }).collect();
    assert_eq!(genome_fitness(&decisive), 32);
    let mut one_neutral = decisive.clone();
    one_neutral[7] = 0;
    assert_eq!(genome_fitness(&one_neutral), 31);
    assert_eq!(genome_fitness(&vec![0i8; 32]), 0);
    assert_eq!(genome_fitness(&vec![-1i8, 0, 1]), 2);
}

#[test]
fn nan_mutation_rate_is_refused() {
    let args: Vec<String> = vec!["--mutation-rate".into(), "NaN".into()];
    assert_eq!(parse(&args).err(), Some("mutation-rate must be in [0, 1]".to_string()));
    let args: Vec<String> = vec!["-m".into(), "1".into()];
    assert_eq!(parse(&args).unwrap().mutation_rate, "1");
    let args: Vec<String> = vec!["-m".into(), "0".into()];
    assert_eq!(parse(&args).unwrap().mutation_rate, "0");
}

#[test]
fn fitness_of_any_genes_is_the_sum_of_magnitudes() {
    assert_eq!(genome_fitness(&vec![-128i8, 5, -3, 127]), 263);
    assert_eq!(genome_fitness(&vec![]), 0);
}
