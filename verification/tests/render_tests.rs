use aster_dyndbg::descriptor::{DebugDescriptor, FLAG_FUNCTION, FLAG_LINE, FLAG_MODULE, FLAG_THREAD};
use aster_dyndbg::render::{decimal_string, dyndbg_log_line, format_dyndbg_log};

#[test]
fn decimal_rendering() {
    assert_eq!(decimal_string(0), "0");
    assert_eq!(decimal_string(7), "7");
    assert_eq!(decimal_string(1234567890), "1234567890");
    assert_eq!(decimal_string(u64::MAX), "18446744073709551615");
}

#[test]
fn log_prefix_in_listing_order() {
    let mut d = DebugDescriptor::new("a.rs", "m", Some("f"), 7);
    d.set_format_flags(FLAG_FUNCTION | FLAG_LINE | FLAG_MODULE | FLAG_THREAD);
    assert_eq!(format_dyndbg_log(&d, "hello", Some(0xabc)), "a.rs:7 [m] f [task=0xabc] hello");
    assert_eq!(format_dyndbg_log(&d, "hello", None), "a.rs:7 [m] f hello");
}

#[test]
fn log_prefix_single_flags() {
    let mut d = DebugDescriptor::new("x/y.rs", "k::y", None, 120);
    d.set_format_flags(FLAG_FUNCTION);
    assert_eq!(format_dyndbg_log(&d, "m", Some(1)), "<unknown> m");
    d.set_format_flags(FLAG_LINE);
    assert_eq!(format_dyndbg_log(&d, "m", Some(1)), "x/y.rs:120 m");
    d.set_format_flags(FLAG_MODULE);
    assert_eq!(format_dyndbg_log(&d, "m", Some(1)), "[k::y] m");
    d.set_format_flags(FLAG_THREAD);
    assert_eq!(format_dyndbg_log(&d, "m", Some(255)), "[task=0xff] m");
    d.set_format_flags(0);
    assert_eq!(format_dyndbg_log(&d, "m", Some(255)), "m");
}

#[test]
fn log_line_follows_switch_and_flags() {
    let mut d = DebugDescriptor::new("a.rs", "m", Some("f"), 1);
    assert_eq!(dyndbg_log_line(&d, "msg", None), None);
    d.update_enabled(true, false);
    assert_eq!(dyndbg_log_line(&d, "msg", None), Some(String::from("msg")));
    d.set_format_flags(FLAG_LINE);
    assert_eq!(dyndbg_log_line(&d, "msg", None), Some(String::from("a.rs:1 msg")));
}
