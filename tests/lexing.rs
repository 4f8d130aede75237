use insight::text::{Decimal, parse_decimal, parse_u32, split_into_lines};

fn word(s: &str) -> Vec<u8> {
    s.as_bytes().to_vec()
}

#[test]
fn lines_and_words() {
    let lines = split_into_lines(b"a bc\r\n\n  d\te  ");
    assert_eq!(lines, vec![vec![word("a"), word("bc")], vec![], vec![word("d"), word("e")]]);
    assert!(split_into_lines(b"").is_empty());
    assert_eq!(split_into_lines(b"x\n"), vec![vec![word("x")]]);
}

#[test]
fn unsigned_numbers() {
    assert_eq!(parse_u32(&word("42")), Some(42));
    assert_eq!(parse_u32(&word("+7")), Some(7));
    assert_eq!(parse_u32(&word("4294967295")), Some(4294967295));
    assert_eq!(parse_u32(&word("4294967296")), None);
    assert_eq!(parse_u32(&word("")), None);
    assert_eq!(parse_u32(&word("+")), None);
    assert_eq!(parse_u32(&word("1a")), None);
}

#[test]
fn decimal_numbers() {
    assert_eq!(parse_decimal(&word("0.25")), Some(Decimal { digits: 25, places: 2 }));
    assert_eq!(parse_decimal(&word("1")), Some(Decimal { digits: 1, places: 0 }));
    assert_eq!(parse_decimal(&word(".5")), Some(Decimal { digits: 5, places: 1 }));
    assert_eq!(parse_decimal(&word("2.")), Some(Decimal { digits: 2, places: 0 }));
    assert_eq!(parse_decimal(&word(".")), None);
    assert_eq!(parse_decimal(&word("1.2.3")), None);
    assert_eq!(parse_decimal(&word("c")), None);
    assert_eq!(parse_decimal(&word("123456789012345678")), Some(Decimal { digits: 123456789012345678, places: 0 }));
    assert_eq!(parse_decimal(&word("1234567890123456789")), None);
}
