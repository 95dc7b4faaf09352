use melon::parse::parse_mbatch_text;

fn file_text(content: &str) -> String {
    format!("{}\n", content)
}

#[test]
fn test_parse_valid_input() {
    let content = r#"
#!/bin/bash
#MBATCH -c 4
#MBATCH -m 8G
#MBATCH -t 1-12:30
echo "Hello, World!"
"#;
    let result = parse_mbatch_text(&file_text(content)).unwrap();
    assert_eq!(result.cpu_count, 4);
    assert_eq!(result.memory, 8 * 1024 * 1024 * 1024);
    assert_eq!(result.time, 2190);
}

#[test]
fn test_parse_memory_in_mb() {
    let content = "#MBATCH -c 2\n#MBATCH -m 512M\n#MBATCH -t 0-01:00";
    let result = parse_mbatch_text(&file_text(content)).unwrap();
    assert_eq!(result.memory, 512 * 1024 * 1024);
}

#[test]
fn test_parse_invalid_memory_suffix() {
    let content = "#MBATCH -c 2\n#MBATCH -m 512K\n#MBATCH -t 0-01:00";
    let result = parse_mbatch_text(&file_text(content));
    assert!(result.is_err());
    assert!(result.unwrap_err().contains("Unsupported memory suffix"));
}

#[test]
fn test_parse_missing_parameters() {
    let content = "#MBATCH -c 2\n#MBATCH -m 4G";
    let result = parse_mbatch_text(&file_text(content));
    assert!(result.is_err());
    assert!(result.unwrap_err().contains("Missing required MBATCH parameters"));
}

#[test]
fn test_parse_invalid_time_format() {
    let content = "#MBATCH -c 2\n#MBATCH -m 4G\n#MBATCH -t 1:30";
    let result = parse_mbatch_text(&file_text(content));
    assert!(result.is_err());
}

#[test]
fn test_parse_ignore_non_mbatch_lines() {
    let content = r#"
#!/bin/bash
# Some comment
#MBATCH -c 4
echo "Hello"
#MBATCH -m 8G
#MBATCH -t 0-02:00
"#;
    let result = parse_mbatch_text(&file_text(content)).unwrap();
    assert_eq!(result.cpu_count, 4);
    assert_eq!(result.memory, 8 * 1024 * 1024 * 1024);
    assert_eq!(result.time, 120);
}

#[test]
fn test_parse_invalid_numeric_values() {
    let content = "#MBATCH -c abc\n#MBATCH -m 4G\n#MBATCH -t 0-02:00";
    let result = parse_mbatch_text(&file_text(content));
    assert!(result.is_err());
}

#[test]
fn test_parse_out_of_order_parameters() {
    let content = "#MBATCH -t 0-02:00\n#MBATCH -c 2\n#MBATCH -m 4G";
    let result = parse_mbatch_text(&file_text(content)).unwrap();
    assert_eq!(result.cpu_count, 2);
    assert_eq!(result.memory, 4 * 1024 * 1024 * 1024);
    assert_eq!(result.time, 120);
}

#[test]
fn mbatch_rejects_hours_and_minutes_out_of_range() {
    let hours = "#MBATCH -c 2\n#MBATCH -m 4G\n#MBATCH -t 0-24:00";
    assert_eq!(parse_mbatch_text(hours).unwrap_err(), "Hours must be less than 24");
    let minutes = "#MBATCH -c 2\n#MBATCH -m 4G\n#MBATCH -t 0-23:60";
    assert_eq!(parse_mbatch_text(minutes).unwrap_err(), "Minutes must be less than 60");
    let fine = "#MBATCH -c 2\n#MBATCH -m 4G\n#MBATCH -t 0-23:59";
    assert_eq!(parse_mbatch_text(fine).unwrap().time, 23 * 60 + 59);
}

#[test]
fn mbatch_rejects_memory_without_suffix() {
    let content = "#MBATCH -c 2\n#MBATCH -m 4096\n#MBATCH -t 0-01:00";
    assert_eq!(parse_mbatch_text(content).unwrap_err(), "Unsupported memory suffix in 4096");
}

#[test]
fn mbatch_handles_crlf_and_later_values() {
    let content = "#MBATCH -c 2\r\n#MBATCH -c 3\r\n#MBATCH -m 1M\r\n#MBATCH -t 2-00:05\r\n";
    let r = parse_mbatch_text(content).unwrap();
    assert_eq!(r.cpu_count, 3);
    assert_eq!(r.memory, 1024 * 1024);
    assert_eq!(r.time, 2 * 1440 + 5);
}

#[test]
fn mbatch_empty_text_is_missing_everything() {
    assert!(parse_mbatch_text("").unwrap_err().contains("Missing required MBATCH parameters"));
}
