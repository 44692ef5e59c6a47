use pic2term::options::{determine_filter, is_u16, Filter};

#[test]
fn filter_names_map_to_their_filters() {
    assert_eq!(determine_filter("nearest"), Some(Filter::Nearest));
    assert_eq!(determine_filter("triangle"), Some(Filter::Triangle));
    assert_eq!(determine_filter("gaussian"), Some(Filter::Gaussian));
    assert_eq!(determine_filter("catmullrom"), Some(Filter::CatmullRom));
    assert_eq!(determine_filter("lanczos3"), Some(Filter::Lanczos3));
}

#[test]
fn unknown_filter_names_are_rejected() {
    assert_eq!(determine_filter(""), None);
    assert_eq!(determine_filter("nearest "), None);
    assert_eq!(determine_filter("Lanczos3"), None);
    assert_eq!(determine_filter("cubic"), None);
}

#[test]
fn accepts_decimal_u16() {
    assert_eq!(is_u16(String::from("0")), Ok(()));
    assert_eq!(is_u16(String::from("123")), Ok(()));
    assert_eq!(is_u16(String::from("65535")), Ok(()));
    assert_eq!(is_u16(String::from("+42")), Ok(()));
    assert_eq!(is_u16(String::from("007")), Ok(()));
}

#[test]
fn rejects_empty_string() {
    assert_eq!(
        is_u16(String::new()),
        Err(String::from("cannot parse integer from empty string"))
    );
}

#[test]
fn rejects_invalid_digits() {
    let expected = Err(String::from("invalid digit found in string"));
    assert_eq!(is_u16(String::from("12a")), expected);
    assert_eq!(is_u16(String::from("-1")), expected);
    assert_eq!(is_u16(String::from("+")), expected);
    assert_eq!(is_u16(String::from(" 1")), expected);
    assert_eq!(is_u16(String::from("1.5")), expected);
}

#[test]
fn rejects_values_past_u16() {
    let expected = Err(String::from("number too large to fit in target type"));
    assert_eq!(is_u16(String::from("65536")), expected);
    assert_eq!(is_u16(String::from("70000")), expected);
    assert_eq!(is_u16(String::from("99999999999999999999")), expected);
}

#[test]
fn agrees_with_the_standard_parser() {
    // The validator must behave exactly as parsing with the standard
    // library and stringifying its error does.
    let cases = [
        "", "0", "1", "65535", "65536", "655351", "+", "+0", "-0", "12a", "a12", "007",
        "99999x", " 1", "1 ", "\u{0663}", "+65535", "+65536",
    ];
    for s in cases {
        let expected = s.parse::<u16>().map(|_| ()).map_err(|e| e.to_string());
        assert_eq!(is_u16(String::from(s)), expected, "input {:?}", s);
    }
}
