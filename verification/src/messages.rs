//! The messages that a capture records next to the packets.

use vstd::prelude::*;
use vstd::string::*;

use crate::text;

verus! {

/// Nanoseconds in a microsecond.
pub const TIME_US: u64 = 1_000;

/// Nanoseconds in a millisecond.
pub const TIME_MS: u64 = 1_000_000;

/// Line states that lasted this long are recorded without their duration.
pub const LS_DELTA_THRESHOLD: u64 = 10_000_000;

/// `Folded <count> empty frames`, or the singular form.
pub open spec fn folded(count: int) -> Seq<char> {
    if count == 1 {
        "Folded empty frame"@
    } else {
        "Folded "@ + text::dec(count as nat) + " empty frames"@
    }
}

/// The state of the trigger input.
pub open spec fn trigger_input(trigger: int) -> Seq<char> {
    "Trigger input = "@ + text::dec(trigger as nat)
}

/// The state of the bus voltage.
pub open spec fn vbus(on: bool) -> Seq<char> {
    if on {
        "VBUS ON"@
    } else {
        "VBUS OFF"@
    }
}

/// The speed that the hardware detected; code 3 is a bus reset.
pub open spec fn detected_speed(speed: int) -> Seq<char> {
    if speed == 0 {
        "Detected speed: Low-Speed"@
    } else if speed == 1 {
        "Detected speed: Full-Speed"@
    } else if speed == 2 {
        "Detected speed: High-Speed"@
    } else {
        "--- Bus Reset ---"@
    }
}

/// A header with the wrong toggle bit.
pub open spec fn wrong_toggle(received: int, expected: int) -> Seq<char> {
    "Error: received toggle value "@ + text::dec(received as nat) + ", expected "@ + text::dec(
        expected as nat,
    )
}

/// A data frame with an impossible size.
pub open spec fn invalid_size(size: int) -> Seq<char> {
    "Error: invalid data size ("@ + text::dec(size as nat) + ")"@
}

/// Each byte in two hexadecimal digits, followed by a space.
pub open spec fn hex_dump(bytes: Seq<u8>) -> Seq<char>
    decreases bytes.len(),
{
    if bytes.len() == 0 {
        Seq::empty()
    } else {
        hex_dump(bytes.drop_last()) + text::hex_fixed(bytes.last() as nat, 2) + " "@
    }
}

/// The header on which synchronization was lost.
pub open spec fn packet_header(header: Seq<u8>) -> Seq<char> {
    "Packet header: "@ + hex_dump(header)
}

/// How long a line state lasted, in the unit that suits it.
pub open spec fn duration(delta: int) -> Seq<char> {
    if delta >= LS_DELTA_THRESHOLD {
        Seq::empty()
    } else if delta < TIME_US {
        " ("@ + text::two_decimals((delta * 100) as nat) + " ns)"@
    } else if delta < TIME_MS {
        " ("@ + text::two_decimals(text::single_hundredths(delta as nat, TIME_US as nat)) + " us)"@
    } else {
        " ("@ + text::two_decimals(text::single_hundredths(delta as nat, TIME_MS as nat)) + " ms)"@
    }
}

/// Which comparators see the level of an idle line.
pub open spec fn level(level: int) -> Seq<char> {
    if level == 1 {
        " [both]"@
    } else if level == 2 {
        " [single]"@
    } else {
        Seq::empty()
    }
}

/// The name of a line state: `ls` has the level of D+ in its low two bits and that of D- in the
/// two above. J is the idle state, which a low-speed bus has on D- and any other bus on D+.
pub open spec fn line_state_name(ls: int, low_speed: bool) -> Seq<char> {
    let dp = ls % 4;
    let dm = ls / 4 % 4;
    if dp == 0 && dm == 0 {
        "SE0"@
    } else if dp != 0 && dm != 0 {
        "Undefined (DP="@ + text::dec(dp as nat) + " / DM="@ + text::dec(dm as nat) + ")"@
    } else if (dp == 0) == low_speed {
        "J"@
    } else {
        "K"@
    }
}

/// The level of the one line that is not at zero; zero where both are or none is.
pub open spec fn line_state_level(ls: int) -> int {
    let dp = ls % 4;
    let dm = ls / 4 % 4;
    if dp == 0 {
        dm
    } else if dm == 0 {
        dp
    } else {
        0
    }
}

/// A line state that lasted for `delta` nanoseconds.
pub open spec fn line_state(ls: int, low_speed: bool, delta: int) -> Seq<char> {
    "Line state: "@ + line_state_name(ls, low_speed) + level(line_state_level(ls)) + duration(delta)
}

/// The message for folded frames.
pub fn folded_message(count: i32) -> (s: String)
    requires
        0 < count,
    ensures
        s@ == folded(count as int),
{
    if count == 1 {
        return "Folded empty frame".to_owned();
    }
    let mut s = "Folded ".to_owned();
    s.append(text::dec_string(count as u64).as_str());
    s.append(" empty frames");
    s
}

/// The message for a change of the trigger input.
pub fn trigger_input_message(trigger: i32) -> (s: String)
    requires
        0 <= trigger,
    ensures
        s@ == trigger_input(trigger as int),
{
    let mut s = "Trigger input = ".to_owned();
    s.append(text::dec_string(trigger as u64).as_str());
    s
}

/// The message for a change of the bus voltage.
pub fn vbus_message(on: bool) -> (s: &'static str)
    ensures
        s@ == vbus(on),
{
    if on {
        "VBUS ON"
    } else {
        "VBUS OFF"
    }
}

/// The message for a change of the detected speed.
pub fn detected_speed_message(speed: i32) -> (s: &'static str)
    requires
        0 <= speed <= 3,
    ensures
        s@ == detected_speed(speed as int),
{
    match speed {
        0 => "Detected speed: Low-Speed",
        1 => "Detected speed: Full-Speed",
        2 => "Detected speed: High-Speed",
        _ => "--- Bus Reset ---",
    }
}

/// The message for a header with the wrong toggle bit.
pub fn wrong_toggle_message(received: u8, expected: u8) -> (s: String)
    ensures
        s@ == wrong_toggle(received as int, expected as int),
{
    let mut s = "Error: received toggle value ".to_owned();
    s.append(text::dec_string(received as u64).as_str());
    s.append(", expected ");
    s.append(text::dec_string(expected as u64).as_str());
    s
}

/// The message for a data frame of an impossible size.
pub fn invalid_size_message(size: usize) -> (s: String)
    ensures
        s@ == invalid_size(size as int),
{
    let mut s = "Error: invalid data size (".to_owned();
    s.append(text::dec_string(size as u64).as_str());
    s.append(")");
    s
}

/// The message that shows a header.
pub fn packet_header_message(header: &[u8]) -> (s: String)
    ensures
        s@ == packet_header(header@),
{
    let mut dump = String::new();
    let mut i: usize = 0;
    while i < header.len()
        invariant
            i <= header@.len(),
            dump@ == hex_dump(header@.take(i as int)),
        decreases header@.len() - i,
    {
        assert(header@.take(i + 1).drop_last() =~= header@.take(i as int));
        dump.append(text::hex_fixed_string(header[i] as u64, 2).as_str());
        dump.append(" ");
        i += 1;
    }
    assert(header@.take(i as int) =~= header@);
    let mut s = "Packet header: ".to_owned();
    s.append(dump.as_str());
    s
}

fn duration_message(delta: u64) -> (s: String)
    ensures
        s@ == duration(delta as int),
{
    if delta >= LS_DELTA_THRESHOLD {
        return String::new();
    }
    let mut s = " (".to_owned();
    if delta < TIME_US {
        s.append(text::two_decimals_string(delta * 100).as_str());
        s.append(" ns)");
    } else if delta < TIME_MS {
        let hundredths = text::single_hundredths_u64(delta, TIME_US);
        s.append(text::two_decimals_string(hundredths).as_str());
        s.append(" us)");
    } else {
        let hundredths = text::single_hundredths_u64(delta, TIME_MS);
        s.append(text::two_decimals_string(hundredths).as_str());
        s.append(" ms)");
    }
    s
}

/// The message for a line state that lasted for `delta` nanoseconds.
pub fn line_state_message(ls: i32, low_speed: bool, delta: u64) -> (s: String)
    requires
        0 <= ls,
    ensures
        s@ == line_state(ls as int, low_speed, delta as int),
{
    let dp = ls % 4;
    let dm = ls / 4 % 4;
    let mut name = String::new();
    let mut one_line: i32 = 0;
    if dp == 0 && dm == 0 {
        name = "SE0".to_owned();
    } else if dp == 0 {
        name = if low_speed {
            "J".to_owned()
        } else {
            "K".to_owned()
        };
        one_line = dm;
    } else if dm == 0 {
        name = if low_speed {
            "K".to_owned()
        } else {
            "J".to_owned()
        };
        one_line = dp;
    } else {
        name = "Undefined (DP=".to_owned();
        name.append(text::dec_string(dp as u64).as_str());
        name.append(" / DM=");
        name.append(text::dec_string(dm as u64).as_str());
        name.append(")");
    }
    let mut s = "Line state: ".to_owned();
    s.append(name.as_str());
    let ghost named = s@;
    if one_line == 1 {
        s.append(" [both]");
    } else if one_line == 2 {
        s.append(" [single]");
    }
    assert(s@ =~= named + level(line_state_level(ls as int)));
    s.append(duration_message(delta).as_str());
    s
}

} // verus!
