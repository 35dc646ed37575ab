use ternary_cli::num::{parse_u64, parse_usize, push_decimal, IntErrorKind};

#[test]
fn unsigned_parsing_matches_std() {
    let cases = ["", "+", "-", "-5", "+7", "42", "007", "18446744073709551615", "18446744073709551616", "1 ", " 1", "12a", "99999999999999999999x", "١"];
    for c in cases {
        let ours = parse_u64(c);
        let std = c.parse::<u64>();
        match (ours, std) {
            (Ok(a), Ok(b)) => assert_eq!(a, b, "{:?}", c),
            (Err(k), Err(e)) => assert_eq!(k.message(), e.to_string(), "{:?}", c),
            (a, b) => panic!("{:?}: {:?} vs {:?}", c, a, b),
        }
    }
    assert_eq!(parse_usize("123"), Ok(123));
    assert_eq!(parse_u64("+"), Err(IntErrorKind::InvalidDigit));
}

#[test]
fn decimal_digits() {
    let mut s = String::from("line ");
    push_decimal(&mut s, 0);
    assert_eq!(s, "line 0");
    let mut s = String::new();
    push_decimal(&mut s, 18446744073709551615);
    assert_eq!(s, "18446744073709551615");
}
