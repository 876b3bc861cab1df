use nekotracing::{
    arg_entry, format_duration, format_record, join_args, parse_execution_time, receiver_entry,
    trace_record,
};

#[test]
fn argument_entries() {
    assert_eq!(arg_entry("x", "7"), "x = 7");
    assert_eq!(receiver_entry("User { id: 0 }"), "self = User { id: 0 }");
    assert_eq!(join_args(&vec![]), "");
    assert_eq!(join_args(&vec!["x = 7".to_string()]), "x = 7");
    assert_eq!(
        join_args(&vec!["a = 1".to_string(), "b = \"s\"".to_string(), "c = [1, 2]".to_string()]),
        "a = 1, b = \"s\", c = [1, 2]"
    );
}

#[test]
fn record_layout_exact() {
    let line = format_record(
        "2024-01-02 03:04:05.000000006 +00:00",
        "src/main.rs",
        12,
        5,
        false,
        "answer",
        "",
        "Ok(42)",
        1_500,
    );
    assert_eq!(
        line,
        "(2024-01-02 03:04:05.000000006 +00:00 src/main.rs:12:5)\u{241E}fn answer\u{241E}() -> Ok(42)\u{241E}execution time=1.5\u{b5}s"
    );
}

#[test]
fn sync_ok_scenario() {
    let args = join_args(&vec![]);
    let line = trace_record("src/lib.rs", 3, 1, false, "answer", &args, "Ok(42)", 2_345);
    assert!(line.contains("\u{241E}fn answer\u{241E}"));
    assert!(line.contains("() -> Ok(42)"));
    let t = parse_execution_time(&line);
    assert_eq!(t, Some(2_345));
    assert!(t.unwrap() > 0);
    assert_eq!(line.lines().count(), 1);
}

#[test]
fn async_err_scenario() {
    let args = join_args(&vec![arg_entry("x", &format!("{:?}", 7i32))]);
    let result: Result<i32, &str> = Err("bad");
    let line = trace_record("src/lib.rs", 9, 1, true, "check", &args, &format!("{:?}", result), 40);
    assert!(line.contains("\u{241E}async fn check\u{241E}"));
    assert!(line.contains("x = 7"));
    assert!(line.contains("-> Err(\"bad\")"));
    assert_eq!(parse_execution_time(&line), Some(40));
}

#[test]
fn error_result_logged_as_is() {
    let ok = format_record("t", "f.rs", 1, 2, false, "g", "", "Ok(1)", 7);
    let err = format_record("t", "f.rs", 1, 2, false, "g", "", "Err(ParseIntError { kind: Empty })", 7);
    assert_eq!(ok, "(t f.rs:1:2)\u{241E}fn g\u{241E}() -> Ok(1)\u{241E}execution time=7ns");
    assert_eq!(
        err,
        "(t f.rs:1:2)\u{241E}fn g\u{241E}() -> Err(ParseIntError { kind: Empty })\u{241E}execution time=7ns"
    );
}

#[test]
fn two_records_are_each_well_formed() {
    let a = trace_record("f.rs", 1, 1, false, "work", "n = 1", "2", 1_000);
    let b = trace_record("f.rs", 1, 1, false, "work", "n = 2", "4", 2_000_000);
    for line in [&a, &b] {
        assert_eq!(line.matches('\u{241E}').count(), 3);
        assert!(line.contains("\u{241E}fn work\u{241E}"));
    }
    assert_eq!(parse_execution_time(&a), Some(1_000));
    assert_eq!(parse_execution_time(&b), Some(2_000_000));
}

#[test]
fn duration_text_by_magnitude() {
    assert_eq!(format_duration(0), "0ns");
    assert_eq!(format_duration(999), "999ns");
    assert_eq!(format_duration(1_000), "1\u{b5}s");
    assert_eq!(format_duration(1_500), "1.5\u{b5}s");
    assert_eq!(format_duration(999_999), "999.999\u{b5}s");
    assert_eq!(format_duration(1_000_000), "1ms");
    assert_eq!(format_duration(12_000_034), "12.000034ms");
    assert_eq!(format_duration(2_000_000_000), "2s");
    assert_eq!(format_duration(3_100_000_000), "3.1s");
    assert_eq!(format_duration(1_000_000_001), "1.000000001s");
    assert_eq!(format_duration(u128::MAX), "340282366920938463463374607431.768211455s");
}

#[test]
fn duration_text_matches_std_debug() {
    for n in [0u64, 7, 999, 1_000, 1_500, 123_456, 1_000_000, 12_000_034, 2_000_000_000, 3_100_000_000, 1_000_000_001] {
        let d = std::time::Duration::from_nanos(n);
        assert_eq!(format_duration(n as u128), format!("{:?}", d));
    }
}

#[test]
fn round_trip_through_record() {
    for n in [0u128, 1, 999, 1_000, 1_500, 999_999, 12_000_034, 1_000_000_001, 3_100_000_000, u64::MAX as u128, u128::MAX] {
        let line = format_record("t", "f.rs", 1, 1, false, "g", "a = \"execution time=9s\"", "()", n);
        assert_eq!(parse_execution_time(&line), Some(n));
    }
}

#[test]
fn scanning_rule() {
    assert_eq!(parse_execution_time("execution time=1.5us"), Some(1_500));
    assert_eq!(parse_execution_time("execution time=1.5\u{b5}s"), Some(1_500));
    assert_eq!(parse_execution_time("x\u{241E}execution time=2s"), Some(2_000_000_000));
    assert_eq!(parse_execution_time("execution time=3ms"), Some(3_000_000));
    assert_eq!(parse_execution_time("execution time=42ns"), Some(42));
    assert_eq!(parse_execution_time("execution time=7xx"), Some(7_000));
    assert_eq!(parse_execution_time("execution time=7"), Some(7_000));
    assert_eq!(parse_execution_time("execution time=1.23456789123ms"), Some(1_234_567));
    assert_eq!(parse_execution_time("execution time=0.5ns"), Some(0));
    assert_eq!(parse_execution_time("execution time=4.s"), Some(4_000_000_000));
    assert_eq!(parse_execution_time("no marker here"), None);
    assert_eq!(parse_execution_time("execution time=ms"), None);
    assert_eq!(parse_execution_time("execution time=.5ms"), None);
    assert_eq!(parse_execution_time(""), None);
    assert_eq!(
        parse_execution_time("execution time=340282366920938463463374607431.768211456s"),
        None
    );
    assert_eq!(
        parse_execution_time("execution time=99999999999999999999999999999999999999999ns"),
        None
    );
}
