use melon::parse::parse_time_extension;
use std::time::Duration;

#[test]
fn test_valid_input() {
    let result = parse_time_extension("2-12-30");
    assert!(result.is_ok());
    assert_eq!(
        Duration::from_secs(result.unwrap()),
        Duration::from_secs(2 * 24 * 60 * 60 + 12 * 60 * 60 + 30 * 60)
    );
}

#[test]
fn test_invalid_format() {
    let result = parse_time_extension("2-12");
    assert!(result.is_err());
    assert_eq!(
        result.err().unwrap(),
        "Time extension must be in D-HH-MM format".to_string()
    );
}

#[test]
fn test_invalid_day_format() {
    let result = parse_time_extension("x-12-30");
    assert!(result.is_err());
    assert_eq!(result.err().unwrap(), "Invalid day format".to_string());
}

#[test]
fn test_invalid_hour_format() {
    let result = parse_time_extension("2-xx-30");
    assert!(result.is_err());
    assert_eq!(result.err().unwrap(), "Invalid hour format".to_string());
}

#[test]
fn test_invalid_minute_format() {
    let result = parse_time_extension("2-12-xx");
    assert!(result.is_err());
    assert_eq!(result.err().unwrap(), "Invalid minute format".to_string());
}

#[test]
fn test_hours_greater_than_24() {
    let result = parse_time_extension("2-25-30");
    assert!(result.is_err());
    assert_eq!(
        result.err().unwrap(),
        "Hours must be less than 24".to_string()
    );
}

#[test]
fn test_minutes_greater_than_60() {
    let result = parse_time_extension("2-12-61");
    assert!(result.is_err());
    assert_eq!(
        result.err().unwrap(),
        "Minutes must be less than 60".to_string()
    );
}

#[test]
fn test_edge_case_24_hours() {
    let result = parse_time_extension("1-23-59");
    assert!(result.is_ok());
    assert_eq!(
        Duration::from_secs(result.unwrap()),
        Duration::from_secs(24 * 60 * 60 + 23 * 60 * 60 + 59 * 60)
    );
}

#[test]
fn test_zero_time() {
    let result = parse_time_extension("0-00-00");
    assert!(result.is_ok());
    assert_eq!(Duration::from_secs(result.unwrap()), Duration::from_secs(0));
}

#[test]
fn extension_boundaries() {
    assert_eq!(parse_time_extension("0-24-00").err().unwrap(), "Hours must be less than 24");
    assert_eq!(parse_time_extension("0-00-60").err().unwrap(), "Minutes must be less than 60");
    assert_eq!(parse_time_extension("+1-00-01"), Ok(86460));
    assert_eq!(parse_time_extension("1-2-3-4").err().unwrap(), "Time extension must be in D-HH-MM format");
    assert_eq!(parse_time_extension("-1-00").err().unwrap(), "Invalid day format");
    assert_eq!(
        parse_time_extension("213503982334602-00-00").err().unwrap(),
        "Time extension is too large"
    );
}
