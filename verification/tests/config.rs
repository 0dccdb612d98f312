use conduit_proxy::config::{
    duration_from_parts, parse_duration, parse_number, Duration, ParseError, Strings, TestEnv,
};

fn test_unit<F: Fn(u64) -> Duration>(unit: &str, to_duration: F) {
    for v in &[0, 1, 23, 456_789] {
        let d = to_duration(*v);
        let text = format!("{}{}", v, unit);
        assert_eq!(parse_duration(&text), Ok(d), "text=\"{}\"", text);

        let text = format!(" {}{}\t", v, unit);
        assert_eq!(parse_duration(&text), Ok(d), "text=\"{}\"", text);
    }
}

#[test]
fn parse_duration_unit_ms() {
    test_unit("ms", |v| Duration::from_millis(v));
}

#[test]
fn parse_duration_unit_s() {
    test_unit("s", |v| Duration::from_secs(v));
}

#[test]
fn parse_duration_unit_m() {
    test_unit("m", |v| Duration::from_secs(v * 60));
}

#[test]
fn parse_duration_unit_h() {
    test_unit("h", |v| Duration::from_secs(v * 60 * 60));
}

#[test]
fn parse_duration_unit_d() {
    test_unit("d", |v| Duration::from_secs(v * 60 * 60 * 24));
}

#[test]
fn parse_duration_floats_invalid() {
    assert_eq!(parse_duration(".123h"), Err(ParseError::NotADuration));
    assert_eq!(parse_duration("1.23h"), Err(ParseError::NotADuration));
}

#[test]
fn parse_duration_space_before_unit_invalid() {
    assert_eq!(parse_duration("1 ms"), Err(ParseError::NotADuration));
}

#[test]
fn parse_duration_overflows_invalid() {
    assert_eq!(
        parse_duration("123456789012345678901234567890ms"),
        Err(ParseError::NotANumber)
    );
}

#[test]
fn parse_duration_invalid_unit() {
    assert_eq!(parse_duration("12moons"), Err(ParseError::NotADuration));
    assert_eq!(parse_duration("12y"), Err(ParseError::NotADuration));
}

#[test]
fn parse_duration_zero_without_unit() {
    assert_eq!(parse_duration("0"), Ok(Duration::from_secs(0)));
}

#[test]
fn parse_duration_number_without_unit_is_invalid() {
    assert_eq!(parse_duration("1"), Err(ParseError::NotADuration));
}

#[test]
fn parse_duration_keeps_seconds_and_milliseconds_apart() {
    let d = parse_duration("1500ms").unwrap();
    assert_eq!(d.as_secs(), 1);
    assert_eq!(d.subsec_nanos(), 500_000_000);
    let d = parse_duration("2m").unwrap();
    assert_eq!(d.as_secs(), 120);
    assert_eq!(d.subsec_nanos(), 0);
    assert_ne!(parse_duration("1s"), parse_duration("1ms"));
}

#[test]
fn parse_duration_whose_seconds_do_not_fit_is_no_number() {
    let text = format!("{}d", u64::MAX);
    assert_eq!(parse_duration(&text), Err(ParseError::NotANumber));
    let text = format!("{}s", u64::MAX);
    assert_eq!(parse_duration(&text), Ok(Duration::from_secs(u64::MAX)));
}

#[test]
fn duration_from_parts_reads_every_unit() {
    let unit = |u: &str| u.to_owned();
    assert_eq!(duration_from_parts(7, Some(&unit("ms"))), Ok(Duration::from_millis(7)));
    assert_eq!(duration_from_parts(7, Some(&unit("s"))), Ok(Duration::from_secs(7)));
    assert_eq!(duration_from_parts(7, Some(&unit("m"))), Ok(Duration::from_secs(420)));
    assert_eq!(duration_from_parts(7, Some(&unit("h"))), Ok(Duration::from_secs(25_200)));
    assert_eq!(duration_from_parts(7, Some(&unit("d"))), Ok(Duration::from_secs(604_800)));
    assert_eq!(duration_from_parts(7, Some(&unit("w"))), Err(ParseError::NotADuration));
    assert_eq!(duration_from_parts(7, None), Err(ParseError::NotADuration));
    assert_eq!(duration_from_parts(0, None), Ok(Duration::from_secs(0)));
}

#[test]
fn parse_number_reads_decimal() {
    assert_eq!(parse_number("0"), Ok(0));
    assert_eq!(parse_number("4140"), Ok(4140));
    assert_eq!(parse_number("18446744073709551615"), Ok(u64::MAX));
    assert_eq!(parse_number("18446744073709551616"), Err(ParseError::NotANumber));
    assert_eq!(parse_number(""), Err(ParseError::NotANumber));
    assert_eq!(parse_number("12a"), Err(ParseError::NotANumber));
    assert_eq!(parse_number("+12"), Ok(12));
    assert_eq!(parse_number("0012"), Ok(12));
    assert_eq!(parse_number("+"), Err(ParseError::NotANumber));
    assert_eq!(parse_number("-0"), Err(ParseError::NotANumber));
    assert_eq!(parse_number(" 12"), Err(ParseError::NotANumber));
    assert_eq!(parse_number("1_000"), Err(ParseError::NotANumber));
}

#[test]
fn test_env_returns_what_was_put() {
    let mut env = TestEnv::new();
    assert_eq!(env.get("A"), Ok(None));
    env.put("A", "one".to_owned());
    env.put("B", "two".to_owned());
    assert_eq!(env.get("A"), Ok(Some("one".to_owned())));
    assert_eq!(env.get("B"), Ok(Some("two".to_owned())));
    assert_eq!(env.get("C"), Ok(None));
    env.put("A", "three".to_owned());
    assert_eq!(env.get("A"), Ok(Some("three".to_owned())));
    assert_eq!(env.get("B"), Ok(Some("two".to_owned())));
}
