use t2fanrd::decimal::Decimal;

#[test]
fn decimal_is_worth_a_whole_number() {
    assert!(Decimal::parse("+03.00").unwrap().equals(3));
    assert!(!Decimal::parse("3.01").unwrap().equals(3));
    assert!(Decimal::parse("1.").unwrap().equals(1));
    assert!(!Decimal::parse(".0").unwrap().equals(1));
    assert!(Decimal::parse(".0").unwrap().equals(0));
    assert!(!Decimal::parse(".5").unwrap().equals(0));
    assert!(!Decimal::parse("99999999999").unwrap().equals(3));
    assert!(Decimal::three().equals(3));
}

#[test]
fn decimal_is_read() {
    assert!(Decimal::parse("1e3").is_none());
    assert!(Decimal::parse(".").is_none());
    assert!(Decimal::parse("").is_none());
    assert!(Decimal::parse("1.2.3").is_none());
    assert!(Decimal::parse("-1").is_none());
    assert_eq!(Decimal::parse("2.5").unwrap().as_text(), "2.5");
}
