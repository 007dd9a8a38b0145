use travel_agent::codes::{CurrencyCode, IataCode, Station};
use travel_agent::datetime::{split_iso_datetime, Date, DateTimeError, Field, Time};
use travel_agent::providers::trains_between_url;

#[test]
fn trains_between_structure_test() {
    let source = Station::new("NDLS".into()).unwrap();
    let destination = Station::new("BCT".into()).unwrap();
    let date = Date::new(2026, 1, 23).unwrap();
    assert_eq!(
        trains_between_url(&source, &destination, &date),
        "https://irctc1.p.rapidapi.com/api/v3/trainBetweenStations?fromStationCode=NDLS&toStationCode=BCT&dateOfJourney=2026-01-23"
    );
}

#[test]
fn plan_test() {
    let d = Date::from_yyyy_mm_dd("2025-10-04").unwrap();
    assert_eq!((d.year(), d.month(), d.day()), (2025, 10, 4));
    assert_eq!(CurrencyCode::parse("INR"), Some(CurrencyCode::Inr));
}

#[test]
fn date_new_bounds() {
    assert!(Date::new(2024, 12, 31).is_ok());
    assert_eq!(Date::new(2024, 1, 32), Err(DateTimeError::OutOfRange(Field::Day, 32)));
    assert_eq!(Date::new(2024, 13, 1), Err(DateTimeError::OutOfRange(Field::Month, 13)));
    // the day is checked before the month
    assert_eq!(Date::new(2024, 13, 40), Err(DateTimeError::OutOfRange(Field::Day, 40)));
    assert!(Date::new(2024, 0, 0).is_ok());
}

#[test]
fn date_round_trip_and_padding() {
    let d = Date::new(7, 3, 9).unwrap();
    assert_eq!(d.to_yyyy_mm_dd(), "0007-03-09");
    let back = Date::from_yyyy_mm_dd(&d.to_yyyy_mm_dd()).unwrap();
    assert_eq!(back, d);
    assert_eq!(Date::new(65535, 12, 31).unwrap().to_yyyy_mm_dd(), "65535-12-31");
}

#[test]
fn date_parse_errors() {
    assert_eq!(Date::from_yyyy_mm_dd("2025"), Err(DateTimeError::Missing(Field::Month)));
    assert_eq!(Date::from_yyyy_mm_dd("2025-10"), Err(DateTimeError::Missing(Field::Day)));
    assert_eq!(Date::from_yyyy_mm_dd("2025-10-04-01"), Err(DateTimeError::TooManyParts(Field::DatePart)));
    assert_eq!(Date::from_yyyy_mm_dd("20x5-10-04"), Err(DateTimeError::InvalidNumber(Field::Year)));
    assert_eq!(Date::from_yyyy_mm_dd("2025--04"), Err(DateTimeError::InvalidNumber(Field::Month)));
    assert_eq!(Date::from_yyyy_mm_dd("2025-10-256"), Err(DateTimeError::InvalidNumber(Field::Day)));
    assert_eq!(Date::from_yyyy_mm_dd("65536-01-01"), Err(DateTimeError::InvalidNumber(Field::Year)));
    assert_eq!(Date::from_yyyy_mm_dd("2025-10-40"), Err(DateTimeError::OutOfRange(Field::Day, 40)));
    assert_eq!(Date::from_yyyy_mm_dd(""), Err(DateTimeError::InvalidNumber(Field::Year)));
    // std reads one leading plus sign
    let d = Date::from_yyyy_mm_dd("+2025-+1-+2").unwrap();
    assert_eq!((d.year(), d.month(), d.day()), (2025, 1, 2));
    assert_eq!(Date::from_yyyy_mm_dd("-2025-1-2"), Err(DateTimeError::InvalidNumber(Field::Year)));
}

#[test]
fn time_parse_and_format() {
    let t = Time::from_hh_mm_ss("07:05:09").unwrap();
    assert_eq!((t.hour(), t.minute(), t.second()), (7, 5, 9));
    assert_eq!(t.to_hh_mm_ss(), "07:05:09");
    assert_eq!(Time::new(24, 0, 0), Err(DateTimeError::OutOfRange(Field::Hour, 24)));
    assert_eq!(Time::new(0, 60, 0), Err(DateTimeError::OutOfRange(Field::Minute, 60)));
    assert_eq!(Time::new(0, 0, 60), Err(DateTimeError::OutOfRange(Field::Second, 60)));
    assert_eq!(Time::from_hh_mm_ss("12:30"), Err(DateTimeError::Missing(Field::Second)));
    assert_eq!(Time::from_hh_mm_ss("12:30:00:00"), Err(DateTimeError::TooManyParts(Field::TimePart)));
    assert_eq!(Time::from_hh_mm_ss("ab:30:00"), Err(DateTimeError::InvalidNumber(Field::Hour)));
}

#[test]
fn iso_datetime_split() {
    let (d, t) = split_iso_datetime("2025-10-04T13:45:00+05:30").unwrap();
    assert_eq!(d.to_yyyy_mm_dd(), "2025-10-04");
    assert_eq!(t.to_hh_mm_ss(), "13:45:00");
    let (d, t) = split_iso_datetime("2025-10-04T06:05:00").unwrap();
    assert_eq!((d.day(), t.hour(), t.minute()), (4, 6, 5));
    assert_eq!(split_iso_datetime("2025-10-04"), Err(DateTimeError::Missing(Field::TimePart)));
    assert_eq!(
        split_iso_datetime("2025-10-04T25:00:00"),
        Err(DateTimeError::OutOfRange(Field::Hour, 25))
    );
}

#[test]
fn iata_codes() {
    let c = IataCode::new("DEL".to_string()).unwrap();
    assert_eq!(c.as_str(), "DEL");
    assert!(IataCode::new("".to_string()).is_ok());
    assert_eq!(IataCode::new("del".to_string()), Err("Invalid ITATA code: del".to_string()));
    assert_eq!(IataCode::new("DELH".to_string()), Err("Invalid ITATA code: DELH".to_string()));
    assert!(IataCode::new("D1".to_string()).is_err());
}

#[test]
fn station_codes() {
    assert_eq!(Station::new("NDLS".to_string()).unwrap().as_str(), "NDLS");
    assert!(Station::new("BCT2".to_string()).is_ok());
    assert!(Station::new("LONGSTATION1".to_string()).is_ok());
    assert_eq!(Station::new("nd-ls".to_string()), Err("Invalid Station code: nd-ls".to_string()));
}

#[test]
fn currency_codes() {
    assert_eq!(CurrencyCode::parse("usd"), Some(CurrencyCode::Usd));
    assert_eq!(CurrencyCode::parse("Eur"), Some(CurrencyCode::Eur));
    assert_eq!(CurrencyCode::parse("INR"), Some(CurrencyCode::Inr));
    assert_eq!(CurrencyCode::parse("gbp"), None);
    assert_eq!(CurrencyCode::from_upper("usd"), None);
    assert_eq!(CurrencyCode::Usd.code(), "USD");
    assert_eq!(CurrencyCode::Inr.code(), "INR");
    assert_eq!(CurrencyCode::Eur.code(), "EUR");
}

#[test]
fn error_messages() {
    assert_eq!(Date::new(2024, 1, 32).unwrap_err().message(), "Day cannot be more than 31. Found: 32");
    assert_eq!(Date::new(2024, 13, 1).unwrap_err().message(), "Month cannot be more than 12. Found: 13");
    assert_eq!(Time::new(24, 0, 0).unwrap_err().message(), "Hour cannot be more than 23. Found: 24");
    assert_eq!(Time::new(0, 60, 0).unwrap_err().message(), "Minute cannot be more than 59. Found: 60");
    assert_eq!(Time::new(0, 0, 255).unwrap_err().message(), "Second cannot be more than 59. Found: 255");
    assert_eq!(Date::from_yyyy_mm_dd("2025").unwrap_err().message(), "Month not found");
    assert_eq!(Time::from_hh_mm_ss("12").unwrap_err().message(), "Minute not found");
    assert_eq!(Date::from_yyyy_mm_dd("1-2-3-4").unwrap_err().message(), "Too many parameters in data");
    assert_eq!(Time::from_hh_mm_ss("1:2:3:4").unwrap_err().message(), "Too many parameters in time string");
    assert_eq!(Date::from_yyyy_mm_dd("x-1-1").unwrap_err().message(), "Invalid number for Year");
    assert_eq!(split_iso_datetime("2025-10-04").unwrap_err().message(), "Invalid datetime: missing time");
}
