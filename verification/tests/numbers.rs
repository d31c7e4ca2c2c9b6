use merch_inventory::decimal::Decimal;
use merch_inventory::digits::{count_text, parse_count};

fn shown(text: &str) -> Option<String> {
    Decimal::parse(text).map(|d| d.to_text())
}

#[test]
fn counts_are_read_as_typed() {
    assert_eq!(parse_count("0"), Some(0));
    assert_eq!(parse_count("3"), Some(3));
    assert_eq!(parse_count("+3"), Some(3));
    assert_eq!(parse_count("007"), Some(7));
    assert_eq!(parse_count("1234567890"), Some(1234567890));
}

#[test]
fn counts_of_another_shape_are_refused() {
    assert_eq!(parse_count(""), None);
    assert_eq!(parse_count("+"), None);
    assert_eq!(parse_count("-1"), None);
    assert_eq!(parse_count("++1"), None);
    assert_eq!(parse_count(" 5"), None);
    assert_eq!(parse_count("5 "), None);
    assert_eq!(parse_count("1.0"), None);
    assert_eq!(parse_count("1e3"), None);
    assert_eq!(parse_count("1_000"), None);
    assert_eq!(parse_count("abc"), None);
    assert_eq!(parse_count("\u{ff15}"), None);
    assert_eq!(parse_count("5\u{e9}"), None);
}

#[test]
fn counts_reach_the_largest_usize_and_no_further() {
    let largest = usize::MAX.to_string();
    assert_eq!(parse_count(&largest), Some(usize::MAX));
    let beyond = format!("{}0", largest);
    assert_eq!(parse_count(&beyond), None);
    assert_eq!(parse_count("340282366920938463463374607431768211456"), None);
    assert_eq!(
        parse_count("99999999999999999999999999999999999999999999999999"),
        None
    );
}

#[test]
fn count_text_is_the_digits() {
    assert_eq!(count_text(0), "0");
    assert_eq!(count_text(7), "7");
    assert_eq!(count_text(10), "10");
    assert_eq!(count_text(1234567890), "1234567890");
    assert_eq!(count_text(usize::MAX), usize::MAX.to_string());
}

#[test]
fn count_text_reads_back() {
    for n in [0usize, 1, 9, 10, 99, 100, 4096, usize::MAX - 1, usize::MAX] {
        assert_eq!(parse_count(&count_text(n)), Some(n));
    }
}

#[test]
fn decimals_are_read_as_typed() {
    assert_eq!(Decimal::parse("20"), Some(Decimal::new(20, 0)));
    assert_eq!(Decimal::parse("19.99"), Some(Decimal::new(1999, 2)));
    assert_eq!(Decimal::parse("+5"), Some(Decimal::new(5, 0)));
    assert_eq!(Decimal::parse(".5"), Some(Decimal::new(5, 1)));
    assert_eq!(Decimal::parse("+.5"), Some(Decimal::new(5, 1)));
    assert_eq!(Decimal::parse("5."), Some(Decimal::new(5, 0)));
    assert_eq!(Decimal::parse("020"), Some(Decimal::new(20, 0)));
    assert_eq!(Decimal::parse("0.005"), Some(Decimal::new(5, 3)));
    assert_eq!(Decimal::parse("0"), Some(Decimal::new(0, 0)));
}

#[test]
fn zeros_at_the_end_of_the_fraction_do_not_count() {
    assert_eq!(Decimal::parse("20.0"), Decimal::parse("20"));
    assert_eq!(Decimal::parse("2.50"), Some(Decimal::new(25, 1)));
    assert_eq!(Decimal::parse("0.0"), Some(Decimal::new(0, 0)));
    assert_eq!(Decimal::parse(".000"), Some(Decimal::new(0, 0)));
    assert_eq!(Decimal::parse("1.10"), Decimal::parse("1.1"));
    let long = format!("1.{}", "0".repeat(60));
    assert_eq!(Decimal::parse(&long), Some(Decimal::new(1, 0)));
    let d = Decimal::parse("2.50").unwrap();
    assert_eq!(d.units(), 25);
    assert_eq!(d.scale(), 1);
}

#[test]
fn decimals_of_another_shape_are_refused() {
    assert_eq!(Decimal::parse(""), None);
    assert_eq!(Decimal::parse("."), None);
    assert_eq!(Decimal::parse("+"), None);
    assert_eq!(Decimal::parse("+."), None);
    assert_eq!(Decimal::parse("-1"), None);
    assert_eq!(Decimal::parse("-0"), None);
    assert_eq!(Decimal::parse("1.2.3"), None);
    assert_eq!(Decimal::parse("1..2"), None);
    assert_eq!(Decimal::parse("1,5"), None);
    assert_eq!(Decimal::parse("1e3"), None);
    assert_eq!(Decimal::parse("inf"), None);
    assert_eq!(Decimal::parse("NaN"), None);
    assert_eq!(Decimal::parse(" 1"), None);
    assert_eq!(Decimal::parse("1 "), None);
    assert_eq!(Decimal::parse("1.5x"), None);
    assert_eq!(Decimal::parse("x1.5"), None);
    assert_eq!(Decimal::parse("1.+5"), None);
    assert_eq!(Decimal::parse("\u{ff11}"), None);
    assert_eq!(Decimal::parse("1.5\u{20ac}"), None);
}

#[test]
fn decimals_reach_the_largest_u128_and_no_further() {
    assert_eq!(
        Decimal::parse("340282366920938463463374607431768211455"),
        Some(Decimal::new(u128::MAX, 0))
    );
    assert_eq!(Decimal::parse("340282366920938463463374607431768211456"), None);
    assert_eq!(
        Decimal::parse("3402823669209384634633746074317682114.55"),
        Some(Decimal::new(u128::MAX, 2))
    );
    assert_eq!(Decimal::parse("3402823669209384634633746074317682114.56"), None);
    assert_eq!(
        Decimal::parse("0000340282366920938463463374607431768211455.000"),
        Some(Decimal::new(u128::MAX, 0))
    );
    let small = format!("0.{}1", "0".repeat(99));
    let d = Decimal::parse(&small).unwrap();
    assert_eq!(d.units(), 1);
    assert_eq!(d.scale(), 100);
}

#[test]
fn new_holds_each_number_in_one_form() {
    assert_eq!(Decimal::new(200, 1), Decimal::new(20, 0));
    assert_eq!(Decimal::new(2000, 2), Decimal::new(20, 0));
    assert_eq!(Decimal::new(1500, 3), Decimal::new(15, 1));
    assert_eq!(Decimal::new(0, 7), Decimal::new(0, 0));
    assert_eq!(Decimal::new(100, 0).units(), 100);
    assert_eq!(Decimal::new(100, 0).scale(), 0);
    assert_eq!(Decimal::new(100, 1).units(), 10);
    assert_eq!(Decimal::new(100, 5).units(), 1);
    assert_eq!(Decimal::new(100, 5).scale(), 3);
    assert_ne!(Decimal::new(2, 0), Decimal::new(2, 1));
}

#[test]
fn decimal_text_shows_the_point_where_there_is_a_fraction() {
    assert_eq!(Decimal::new(20, 0).to_text(), "20");
    assert_eq!(Decimal::new(200, 1).to_text(), "20");
    assert_eq!(Decimal::new(5, 1).to_text(), "0.5");
    assert_eq!(Decimal::new(5, 3).to_text(), "0.005");
    assert_eq!(Decimal::new(1999, 2).to_text(), "19.99");
    assert_eq!(Decimal::new(0, 0).to_text(), "0");
    assert_eq!(Decimal::new(0, 4).to_text(), "0");
    assert_eq!(Decimal::new(123456789, 4).to_text(), "12345.6789");
    assert_eq!(Decimal::new(1000001, 6).to_text(), "1.000001");
    assert_eq!(
        Decimal::new(u128::MAX, 0).to_text(),
        "340282366920938463463374607431768211455"
    );
    assert_eq!(
        Decimal::new(u128::MAX, 39).to_text(),
        "0.340282366920938463463374607431768211455"
    );
    assert_eq!(Decimal::new(1, 45).to_text(), format!("0.{}1", "0".repeat(44)));
}

#[test]
fn typed_decimals_are_shown_in_short_form() {
    assert_eq!(shown("20.0"), Some("20".to_string()));
    assert_eq!(shown("+7.50"), Some("7.5".to_string()));
    assert_eq!(shown(".5"), Some("0.5".to_string()));
    assert_eq!(shown("5."), Some("5".to_string()));
    assert_eq!(shown("007.0070"), Some("7.007".to_string()));
}

#[test]
fn decimal_text_reads_back() {
    let cases = [
        Decimal::new(0, 0),
        Decimal::new(1, 0),
        Decimal::new(5, 1),
        Decimal::new(1999, 2),
        Decimal::new(1, 30),
        Decimal::new(u128::MAX, 0),
        Decimal::new(u128::MAX, 17),
        Decimal::new(u128::MAX, 39),
        Decimal::new(u128::MAX, 50),
    ];
    for d in cases {
        assert_eq!(Decimal::parse(&d.to_text()), Some(d));
    }
}

#[test]
fn times_is_exact() {
    let price = Decimal::parse("19.99").unwrap();
    assert_eq!(price.times(3), Some(Decimal::new(5997, 2)));
    assert_eq!(price.times(3).unwrap().to_text(), "59.97");
    assert_eq!(price.times(100).unwrap().to_text(), "1999");
    assert_eq!(price.times(0), Some(Decimal::new(0, 0)));
    assert_eq!(price.times(1), Some(price));
    let tenth = Decimal::parse("0.1").unwrap();
    assert_eq!(tenth.times(3).unwrap().to_text(), "0.3");
    assert_eq!(tenth.times(10).unwrap().to_text(), "1");
    let eighth = Decimal::parse("0.125").unwrap();
    assert_eq!(eighth.times(8).unwrap().to_text(), "1");
    assert_eq!(eighth.times(4).unwrap().to_text(), "0.5");
    let large = Decimal::parse("16777217").unwrap();
    assert_eq!(large.times(3).unwrap().to_text(), "50331651");
}

#[test]
fn times_refuses_what_does_not_fit() {
    assert_eq!(Decimal::new(u128::MAX, 0).times(2), None);
    assert_eq!(Decimal::new(u128::MAX, 3).times(2), None);
    assert_eq!(
        Decimal::new(u128::MAX, 0).times(1),
        Some(Decimal::new(u128::MAX, 0))
    );
    let half = Decimal::new(u128::MAX / 2, 0);
    assert_eq!(half.times(2), Some(Decimal::new(u128::MAX - 1, 0)));
    assert_eq!(half.times(3), None);
}

#[test]
fn decimal_text_is_a_number_to_serde_json() {
    for text in ["0", "20", "0.5", "19.99", "59.97", "0.000001", "12345678901234567890.123456789"] {
        let d = Decimal::parse(text).unwrap();
        let number: serde_json::Number = serde_json::from_str(&d.to_text()).unwrap();
        assert_eq!(number.to_string(), text);
        assert_eq!(Decimal::parse(&number.to_string()), Some(d));
    }
}
