use ternary_cli::visualize::VisualizeCmd;

#[test]
fn visualize_parse_defaults() {
    let cmd = VisualizeCmd::parse(&[]).unwrap();
    assert_eq!(cmd.vis_type, "fitness-landscape");
    assert_eq!(cmd.width, 60);
    assert_eq!(cmd.height, 20);
}

#[test]
fn visualize_parse_custom() {
    let args: Vec<String> = vec![
        "--type".into(), "phase-space".into(),
        "--width".into(), "80".into(),
        "--height".into(), "40".into(),
    ];
    let refs: Vec<&String> = args.iter().collect();
    let cmd = VisualizeCmd::parse(&refs).unwrap();
    assert_eq!(cmd.vis_type, "phase-space");
    assert_eq!(cmd.width, 80);
    assert_eq!(cmd.height, 40);
}

#[test]
fn reject_small_width() {
    let args: Vec<String> = vec!["--width".into(), "5".into()];
    let refs: Vec<&String> = args.iter().collect();
    assert!(VisualizeCmd::parse(&refs).is_err());
}

use ternary_cli::visualize::{phase_axes, ternary_field, Visualization};

#[test]
fn visualization_kinds() {
    let mut cmd = VisualizeCmd::parse(&[]).unwrap();
    assert_eq!(cmd.visualization(), Ok(Visualization::FitnessLandscape));
    cmd.vis_type = "ternary-field".into();
    assert_eq!(cmd.visualization(), Ok(Visualization::TernaryField));
    cmd.vis_type = "phase-space".into();
    assert_eq!(cmd.visualization(), Ok(Visualization::PhaseSpace));
    cmd.vis_type = "unknown".into();
    assert_eq!(cmd.visualization(), Err("unknown visualization type: 'unknown'".to_string()));
}

#[test]
fn ternary_field_pattern() {
    let rows = ternary_field(4, 3);
    let lines: Vec<String> = rows.iter().map(|r| r.iter().collect()).collect();
    assert_eq!(lines, vec!["─·│─", "·│─·", "│─·│"]);
}

#[test]
fn visualize_short_h_is_height() {
    let args: Vec<String> = vec!["-h".into(), "4".into()];
    let refs: Vec<&String> = args.iter().collect();
    assert_eq!(VisualizeCmd::parse(&refs).err(), Some("height must be >= 5".to_string()));
}

#[test]
fn phase_axes_marks() {
    let g = phase_axes(10, 5);
    let rows: Vec<String> = g.iter().map(|r| r.iter().collect()).collect();
    assert_eq!(rows[0], "     △    ");
    assert_eq!(rows[1], "     │    ");
    assert_eq!(rows[2], "─────┼───▷");
    assert_eq!(rows[3], "     │    ");
    assert_eq!(rows[4], "     │    ");
    let g = phase_axes(1, 1);
    assert_eq!(g, vec![vec!['▷']]);
}
