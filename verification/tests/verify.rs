use ternary_cli::options::FloatArg;
use ternary_cli::verify::{field_totals, parse_scales, scale_totals, VerifyCmd};
use ternary_cli::num::IntErrorKind;

fn facts(args: &[String]) -> Vec<FloatArg> {
    args.iter()
        .map(|a| match a.parse::<f64>() {
            Err(e) => FloatArg::Unparsable(e.to_string()),
            Ok(v) => FloatArg::Parsed { in_unit: 0.0 <= v && v <= 1.0, at_most_zero: v <= 0.0 },
        })
        .collect()
}

fn parse(args: &[String]) -> Result<VerifyCmd, String> {
    let refs: Vec<&String> = args.iter().collect();
    VerifyCmd::parse(&refs, &facts(args))
}

#[test]
fn verify_parse_defaults() {
    let cmd = parse(&[]).unwrap();
    assert_eq!(cmd.scales, vec![3, 5, 7, 9]);
    assert!((cmd.tolerance.parse::<f64>().unwrap() - 1e-9).abs() < 1e-15);
}

#[test]
fn parse_custom_scales() {
    let args: Vec<String> = vec!["--scales".into(), "2,4,8".into()];
    let cmd = parse(&args).unwrap();
    assert_eq!(cmd.scales, vec![2, 4, 8]);
}

#[test]
fn reject_empty_scales() {
    let args: Vec<String> = vec!["--scales".into(), "".into()];
    assert!(parse(&args).is_err());
}

#[test]
fn verify_parse_messages() {
    let args: Vec<String> = vec!["--scales".into(), "".into()];
    assert_eq!(parse(&args).err(), Some("invalid scales: cannot parse integer from empty string".to_string()));
    let args: Vec<String> = vec!["--scales".into(), " 10 , 20,x".into()];
    assert_eq!(parse(&args).err(), Some("invalid scales: invalid digit found in string".to_string()));
    let args: Vec<String> = vec!["-t".into(), "0".into()];
    assert_eq!(parse(&args).err(), Some("tolerance must be > 0".to_string()));
    let args: Vec<String> = vec!["-t".into(), "tiny".into()];
    assert_eq!(parse(&args).err(), Some("invalid tolerance: invalid float literal".to_string()));
    let args: Vec<String> = vec!["-t".into(), "0.5".into(), "--scales".into(), " 10 , 20".into()];
    let cmd = parse(&args).unwrap();
    assert_eq!(cmd.scales, vec![10, 20]);
    assert_eq!(cmd.tolerance, "0.5");
}

#[test]
fn scale_lists() {
    assert_eq!(parse_scales("1,2,3").unwrap(), vec![1, 2, 3]);
    assert_eq!(parse_scales("7").unwrap(), vec![7]);
    assert_eq!(parse_scales("1,,2").err(), Some(IntErrorKind::Empty));
    assert_eq!(parse_scales("99999999999999999999").err(), Some(IntErrorKind::PosOverflow));
}

#[test]
fn charge_always_conserved() {
    for &scale in &[3u64, 6, 9, 12] {
        let t = scale_totals(scale);
        assert_eq!(t.charge, 0, "charge not conserved at scale {}", scale);
        assert_eq!(t.energy, 2 * scale * scale / 3);
        assert_eq!(t.mass, t.energy);
    }
}

#[test]
fn incomplete_cycles_leave_one_unit_of_charge() {
    // 25 cells: 8 complete cycles and one extra -1.
    let t = field_totals(25);
    assert_eq!(t.charge, -1);
    assert_eq!(t.energy, 17);
    assert_eq!(t.mass, 17);
    let t = field_totals(0);
    assert_eq!((t.energy, t.mass, t.charge), (0, 0, 0));
    let t = field_totals(2);
    assert_eq!((t.energy, t.mass, t.charge), (1, 1, -1));
}

#[test]
fn charge_conserved_only_at_multiples_of_three() {
    for scale in 1u64..=30 {
        let t = scale_totals(scale);
        assert_eq!(t.charge == 0, scale % 3 == 0, "scale {}", scale);
    }
    let t = scale_totals(5);
    assert_eq!((t.energy, t.mass, t.charge), (17, 17, -1));
    let t = scale_totals(4);
    assert_eq!((t.energy, t.mass, t.charge), (11, 11, -1));
}

#[test]
fn only_tolerances_at_most_zero_are_refused() {
    let args: Vec<String> = vec!["--tolerance".into(), "NaN".into()];
    assert_eq!(parse(&args).unwrap().tolerance, "NaN");
    let args: Vec<String> = vec!["-t".into(), "-1".into()];
    assert_eq!(parse(&args).err(), Some("tolerance must be > 0".to_string()));
    let args: Vec<String> = vec!["-t".into(), "-0.0".into()];
    assert_eq!(parse(&args).err(), Some("tolerance must be > 0".to_string()));
}
