//! Numbers in messages.

use usb_sniffer::messages::line_state_message;
use usb_sniffer::text::{
    dec_string, hex_fixed_string, hex_string, single_hundredths_u64, str_eq, two_decimals_string,
};

#[test]
fn decimal_numbers() {
    for n in [0, 9, 10, 99, 1000, 8000, 1234567890, u64::MAX] {
        assert_eq!(dec_string(n), format!("{}", n));
    }
}

#[test]
fn hexadecimal_numbers() {
    for n in [0, 9, 10, 15, 16, 0x4000, 0xdeadbeef, u64::MAX] {
        assert_eq!(hex_string(n), format!("{:x}", n));
    }
    assert_eq!(hex_fixed_string(0x5, 2), "05");
    assert_eq!(hex_fixed_string(0xabc, 2), "bc");
    assert_eq!(hex_fixed_string(0x012bb043, 8), "012bb043");
}

#[test]
fn strings_are_compared_by_their_characters() {
    assert!(str_eq("", ""));
    assert!(str_eq("usb", "usb"));
    assert!(!str_eq("usb", "usc"));
    assert!(!str_eq("usb", "us"));
    assert!(str_eq("\u{e9}", "\u{e9}"));
}

fn hundredths(n: u64, d: u64) -> String {
    two_decimals_string(single_hundredths_u64(n, d))
}

#[test]
fn microseconds_are_rounded_like_single_precision() {
    for delta in 1_000u64..1_000_000 {
        assert_eq!(hundredths(delta, 1_000), format!("{:.2}", delta as f32 / 1_000f32));
    }
}

#[test]
fn milliseconds_are_rounded_like_single_precision() {
    for delta in (1_000_000u64..10_000_000).step_by(7) {
        assert_eq!(hundredths(delta, 1_000_000), format!("{:.2}", delta as f32 / 1_000_000f32));
    }
}

#[test]
fn half_hundredths_of_milliseconds_are_rounded_like_single_precision() {
    for half in 200u64..2_000 {
        for offset in 0..200 {
            let delta = half * 5_000 - 100 + offset;
            if (1_000_000..10_000_000).contains(&delta) {
                assert_eq!(
                    hundredths(delta, 1_000_000),
                    format!("{:.2}", delta as f32 / 1_000_000f32)
                );
            }
        }
    }
}

#[test]
fn nanoseconds_have_two_decimals() {
    for delta in 0u64..1_000 {
        assert_eq!(
            line_state_message(0, false, delta),
            format!("Line state: SE0 ({:.2} ns)", delta as f32)
        );
    }
}

#[test]
fn the_unit_of_a_duration_depends_on_its_size() {
    assert_eq!(line_state_message(0, false, 999), "Line state: SE0 (999.00 ns)");
    assert_eq!(line_state_message(0, false, 1_000), "Line state: SE0 (1.00 us)");
    assert_eq!(line_state_message(0, false, 999_999), "Line state: SE0 (1000.00 us)");
    assert_eq!(line_state_message(0, false, 1_000_000), "Line state: SE0 (1.00 ms)");
    assert_eq!(line_state_message(0, false, 9_999_999), "Line state: SE0 (10.00 ms)");
    assert_eq!(line_state_message(0, false, 10_000_000), "Line state: SE0");
    assert_eq!(line_state_message(0, false, u64::MAX), "Line state: SE0");
}

#[test]
fn line_states_have_names() {
    let long = 20_000_000;
    let names = [
        (0, "SE0", "SE0"),
        (1, "J [both]", "K [both]"),
        (2, "J [single]", "K [single]"),
        (3, "J", "K"),
        (4, "K [both]", "J [both]"),
        (5, "Undefined (DP=1 / DM=1)", "Undefined (DP=1 / DM=1)"),
        (8, "K [single]", "J [single]"),
        (12, "K", "J"),
        (15, "Undefined (DP=3 / DM=3)", "Undefined (DP=3 / DM=3)"),
    ];
    for (ls, full, low) in names {
        assert_eq!(line_state_message(ls, false, long), format!("Line state: {}", full));
        assert_eq!(line_state_message(ls, true, long), format!("Line state: {}", low));
    }
}
