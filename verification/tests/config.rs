use ternary_cli::config::Config;

#[test]
fn parse_empty() {
    let cfg = Config::parse("").unwrap();
    assert!(cfg.sections.is_empty());
}

#[test]
fn parse_comments_and_blanks() {
    let input = "# comment\n\n  \n# another\n";
    let cfg = Config::parse(input).unwrap();
    assert!(cfg.sections.is_empty());
}

#[test]
fn parse_section_with_values() {
    let input = "[evolve]\ngenerations = 1000\npopulation = 200\n";
    let cfg = Config::parse(input).unwrap();
    assert_eq!(cfg.get("evolve", "generations"), Some("1000"));
    assert_eq!(cfg.get("evolve", "population"), Some("200"));
}

#[test]
fn parse_quoted_values() {
    let input = "[test]\nname = \"hello world\"\n";
    let cfg = Config::parse(input).unwrap();
    assert_eq!(cfg.get("test", "name"), Some("hello world"));
}

#[test]
fn parse_single_quoted_values() {
    let input = "[test]\npath = '/some/path'\n";
    let cfg = Config::parse(input).unwrap();
    assert_eq!(cfg.get("test", "path"), Some("/some/path"));
}

#[test]
fn reject_empty_section() {
    let input = "[]\n";
    assert!(Config::parse(input).is_err());
}

#[test]
fn reject_no_equals() {
    let input = "bad line\n";
    assert!(Config::parse(input).is_err());
}

#[test]
fn reject_empty_key() {
    let input = " = value\n";
    assert!(Config::parse(input).is_err());
}

#[test]
fn serialize_roundtrip() {
    let input = "[evolve]\ngenerations = 1000\npopulation = 200\n";
    let cfg = Config::parse(input).unwrap();
    let output = cfg.to_string();
    assert!(output.contains("[evolve]"));
    assert!(output.contains("generations = 1000"));
    assert!(output.contains("population = 200"));
}

#[test]
fn multiple_sections() {
    let input = "[evolve]\ngen = 100\n\n[benchmark]\niter = 50000\n";
    let cfg = Config::parse(input).unwrap();
    assert_eq!(cfg.get("evolve", "gen"), Some("100"));
    assert_eq!(cfg.get("benchmark", "iter"), Some("50000"));
}

use ternary_cli::config::ConfigParse;

#[test]
fn error_messages_name_the_line() {
    assert_eq!(Config::parse("# c\n[]\n").err(), Some("line 2: empty section name".to_string()));
    assert_eq!(Config::parse("[a]\nx = 1\n = 2\n").err(), Some("line 3: empty key".to_string()));
    assert_eq!(
        Config::parse("[a]\nnonsense\n").err(),
        Some("line 2: expected 'key = value' or [section]".to_string())
    );
}

#[test]
fn lone_quote_value_is_reported() {
    assert!(matches!(Config::read("[a]\nk = \"\n"), ConfigParse::Panics));
    assert!(matches!(Config::read("k = '\n"), ConfigParse::Panics));
    assert!(matches!(Config::read("k = \"\"\n"), ConfigParse::Parsed(_)));
}

#[test]
fn keys_before_any_header_and_overrides() {
    let cfg = Config::parse("top = 1\n[s]\nk = a\nk = b\n[s]\n").unwrap();
    assert_eq!(cfg.get("", "top"), Some("1"));
    assert_eq!(cfg.get("s", "k"), Some("b"));
    assert_eq!(cfg.get("s", "missing"), None);
    assert_eq!(cfg.get("nosuch", "k"), None);
}

#[test]
fn to_string_sorts_sections_and_keys() {
    let cfg = Config::parse("[b]\nz = 1\ny = 2\n[a]\nk = v\n[empty]\n").unwrap();
    assert_eq!(cfg.to_string(), "[a]\nk = v\n\n[b]\ny = 2\nz = 1\n\n[empty]\n\n");
}

#[test]
fn printed_config_reads_back() {
    let cfg = Config::parse("[evolve]\ngenerations = 1000\n  population=200  \n[bench]\nit = 'x y'\n").unwrap();
    let text = cfg.to_string();
    let again = Config::parse(&text).unwrap();
    assert_eq!(again.to_string(), text);
    assert_eq!(again.get("bench", "it"), Some("x y"));
    assert_eq!(again.get("evolve", "population"), Some("200"));
}

#[test]
fn white_space_and_crlf() {
    let cfg = Config::parse("\u{a0}[ sec ]\r\n key \t=\u{2003}value\r\n").unwrap();
    assert_eq!(cfg.get("sec", "key"), Some("value"));
    assert!(Config::new().sections.is_empty());
}

#[test]
fn bracketed_keys_read_back_unless_the_line_looks_like_a_header() {
    let cfg = Config::parse("[s]\n[a = b\n").unwrap();
    assert_eq!(cfg.get("s", "[a"), Some("b"));
    let again = Config::parse(&cfg.to_string()).unwrap();
    assert_eq!(again.get("s", "[a"), Some("b"));
    // A value ending with `]` makes the printed line a header.
    let cfg = Config::parse("[s]\n[a = 'b]'\n").unwrap();
    assert_eq!(cfg.get("s", "[a"), Some("b]"));
    let again = Config::parse(&cfg.to_string()).unwrap();
    assert_eq!(again.get("s", "[a"), None);
    assert_eq!(again.get("a = b", "x"), None);
    assert!(again.sections.iter().any(|(name, _)| name == "a = b"));
}
