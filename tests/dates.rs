use hbs_schedule::date::{date_millis, parse_date_token, split_date_token};
use hbs_schedule::ErrorKind;

#[test]
fn date_token_follows_last_space() {
    assert_eq!(split_date_token("Datum: Mo, 18.10.2026"), Ok("18.10.2026"));
    assert_eq!(split_date_token("Datum:"), Err(ErrorKind::DateMalformed));
}

#[test]
fn midnight_utc_in_milliseconds() {
    assert_eq!(parse_date_token("18.10.2026"), Ok(1792281600000));
    assert_eq!(parse_date_token("01.01.1970"), Ok(0));
    assert_eq!(parse_date_token("29.02.2000"), Ok(951782400000));
    assert_eq!(parse_date_token("31.12.1969"), Ok(-86400000));
}

#[test]
fn invalid_dates_do_not_parse() {
    assert_eq!(parse_date_token("32.13.2026"), Err(ErrorKind::DateParse));
    assert_eq!(parse_date_token("29.02.2001"), Err(ErrorKind::DateParse));
    assert_eq!(parse_date_token("2026-10-18"), Err(ErrorKind::DateParse));
}

#[test]
fn parsed_dates_give_midnight() {
    assert_eq!(date_millis(Some((2026, 10, 18))), Ok(1792281600000));
    assert_eq!(date_millis(Some((2026, 2, 30))), Err(ErrorKind::DateParse));
    assert_eq!(date_millis(None), Err(ErrorKind::DateParse));
}
