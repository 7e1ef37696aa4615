use errfmt::error::{create_error, report_error, u64_to_string, ErrorValue, OptionExt};

#[test]
fn create_error_debug_appends_location() {
    let e = create_error("boom", "src/lib.rs", 42, true);
    assert_eq!(e.message(), "boom\nRaised at file: src/lib.rs:42.");
}

#[test]
fn create_error_release_is_message_alone() {
    let e = create_error("boom", "src/lib.rs", 42, false);
    assert_eq!(e.message(), "boom");
}

#[test]
fn create_error_debug_message_starts_with_message() {
    let e = create_error("boom", "src/lib.rs", 42, true);
    assert!(e.message().starts_with("boom"));
    assert!(e.message().contains("Raised at file: "));
}

#[test]
fn create_error_line_zero() {
    let e = create_error("x", "f", 0, true);
    assert_eq!(e.message(), "x\nRaised at file: f:0.");
}

#[test]
fn create_error_huge_line_number() {
    let e = create_error("m", "f", u64::MAX, true);
    assert_eq!(e.message(), "m\nRaised at file: f:18446744073709551615.");
}

#[test]
fn create_error_empty_message_debug() {
    let e = create_error("", "a.rs", 7, true);
    assert_eq!(e.message(), "\nRaised at file: a.rs:7.");
}

#[test]
fn create_error_empty_message_release() {
    let e = create_error("", "a.rs", 7, false);
    assert_eq!(e.message(), "");
}

#[test]
fn report_error_is_failed_result() {
    let r: Result<i32, ErrorValue> = report_error("oops", "m.rs", 3, true);
    match r {
        Ok(_) => panic!("report_error must fail"),
        Err(e) => assert_eq!(e.message(), "oops\nRaised at file: m.rs:3."),
    }
}

#[test]
fn report_error_release_is_message_alone() {
    let r: Result<(), ErrorValue> = report_error("oops", "m.rs", 3, false);
    match r {
        Ok(_) => panic!("report_error must fail"),
        Err(e) => assert_eq!(e.message(), "oops"),
    }
}

#[test]
fn ok_or_error_present_value_is_success() {
    let r = Some(5i32).ok_or_error("missing");
    match r {
        Ok(v) => assert_eq!(v, 5),
        Err(_) => panic!("present value must succeed"),
    }
}

#[test]
fn ok_or_error_absent_value_is_plain_message() {
    let r: Result<i32, ErrorValue> = None.ok_or_error("missing");
    match r {
        Ok(_) => panic!("absent value must fail"),
        Err(e) => {
            assert_eq!(e.message(), "missing");
            assert!(!e.message().contains("Raised at file: "));
        }
    }
}

#[test]
fn ok_or_error_keeps_owned_values() {
    let r = Some(String::from("kept")).ok_or_error("missing");
    match r {
        Ok(v) => assert_eq!(v, "kept"),
        Err(_) => panic!("present value must succeed"),
    }
}

#[test]
fn config_twice_does_not_fail() {
    errfmt::error::config();
    errfmt::error::config();
}

#[test]
fn early_exit_returns_failure_starting_with_message() {
    let run = |bad: bool| -> Result<i32, ErrorValue> {
        if bad {
            return report_error("bad input", "job.rs", 11, true);
        }
        Ok(7)
    };
    match run(true) {
        Ok(_) => panic!("must fail on bad input"),
        Err(e) => assert!(e.message().starts_with("bad input")),
    }
    match run(false) {
        Ok(v) => assert_eq!(v, 7),
        Err(_) => panic!("must succeed on good input"),
    }
}

#[test]
fn error_value_round_trips_its_message() {
    let e = ErrorValue::from_message(String::from("just text"));
    assert_eq!(e.message(), "just text");
    assert_eq!(e.into_message(), "just text");
}

#[test]
fn u64_to_string_renders_decimal() {
    assert_eq!(u64_to_string(0), "0");
    assert_eq!(u64_to_string(7), "7");
    assert_eq!(u64_to_string(10), "10");
    assert_eq!(u64_to_string(12345), "12345");
    assert_eq!(u64_to_string(1000000), "1000000");
    assert_eq!(u64_to_string(u64::MAX), "18446744073709551615");
}
