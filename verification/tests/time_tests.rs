use tesseract::time::parse_u32;
use tesseract::{Error, Time, TimePrecision, TimeValue};

fn s(x: &str) -> String {
    x.to_string()
}

#[test]
fn time_value_words_and_numbers() {
    assert_eq!(TimeValue::from_str(s("latest")), Ok(TimeValue::Last));
    assert_eq!(TimeValue::from_str(s("oldest")), Ok(TimeValue::First));
    assert_eq!(TimeValue::from_str(s("2019")), Ok(TimeValue::Value(2019)));
    assert_eq!(TimeValue::from_str(s("+7")), Ok(TimeValue::Value(7)));
    assert_eq!(TimeValue::from_str(s("4294967295")), Ok(TimeValue::Value(u32::MAX)));
}

#[test]
fn time_value_errors() {
    for bad in ["", "+", "-1", "4294967296", "12a", " 1", "Latest", "99999999999999999999"] {
        let err = TimeValue::from_str(s(bad)).unwrap_err();
        assert_eq!(err, Error::WrongTimeValue);
        assert_eq!(err.message(), "Wrong type for time argument.");
    }
}

#[test]
fn parse_u32_agrees_with_std() {
    let samples = [
        "", "0", "00", "007", "+0", "+", "-", "-0", "1", "+12", "++1", "4294967295", "4294967296",
        "00004294967295", "18446744073709551616", "1_000", "１", "12 ", "a", "٣",
    ];
    for x in samples {
        assert_eq!(parse_u32(x), x.parse::<u32>().ok(), "input {:?}", x);
    }
    for n in [0u32, 1, 9, 10, 99, 1000, 65535, 123456789, u32::MAX] {
        assert_eq!(parse_u32(&n.to_string()), Some(n));
    }
}

#[test]
fn time_precision_words() {
    assert_eq!(TimePrecision::from_str(s("year")), Ok(TimePrecision::Year));
    assert_eq!(TimePrecision::from_str(s("quarter")), Ok(TimePrecision::Quarter));
    assert_eq!(TimePrecision::from_str(s("month")), Ok(TimePrecision::Month));
    assert_eq!(TimePrecision::from_str(s("week")), Ok(TimePrecision::Week));
    assert_eq!(TimePrecision::from_str(s("day")), Ok(TimePrecision::Day));
    let err = TimePrecision::from_str(s("decade")).unwrap_err();
    assert_eq!(err.message(), "Wrong type for time precision argument.");
}

#[test]
fn time_from_str() {
    assert_eq!(
        Time::from_str(s("year.latest")),
        Ok(Time { precision: TimePrecision::Year, value: TimeValue::Last })
    );
    assert_eq!(
        Time::from_str(s("month.3")),
        Ok(Time { precision: TimePrecision::Month, value: TimeValue::Value(3) })
    );
    assert_eq!(Time::from_str(s("year")).unwrap_err().message(), "Wrong format for time argument.");
    assert_eq!(Time::from_str(s("year.1.2")), Err(Error::WrongTimeFormat));
    assert_eq!(Time::from_str(s("")), Err(Error::WrongTimeFormat));
    assert_eq!(Time::from_str(s(".")), Err(Error::WrongTimePrecision));
    // the precision is read first
    assert_eq!(Time::from_str(s("era.x")), Err(Error::WrongTimePrecision));
    assert_eq!(Time::from_str(s("day.x")), Err(Error::WrongTimeValue));
}

#[test]
fn time_from_str_is_from_key_value() {
    for (k, v) in [("year", "oldest"), ("week", "12"), ("decade", "1"), ("day", "soon"), ("", "")] {
        assert_eq!(Time::from_str(format!("{}.{}", k, v)), Time::from_key_value(s(k), s(v)));
    }
}
