//! What the texts of a capture say.

use vstd::prelude::*;

use crate::fpga::FpgaError;
use crate::fx2lp::Fx2lpError;
use crate::jed::JedError;
use crate::laws::files;
use crate::messages;
use crate::text;

verus! {

/// A decimal digit.
pub open spec fn is_decimal(c: char) -> bool {
    48 <= c as int <= 57
}

/// A hexadecimal digit in lower case.
pub open spec fn is_hexadecimal(c: char) -> bool {
    is_decimal(c) || 97 <= c as int <= 102
}

/// The number that decimal digits stand for.
pub open spec fn value(s: Seq<char>) -> int
    decreases s.len(),
{
    if s.len() == 0 {
        0
    } else {
        10 * value(s.drop_last()) + (s.last() as int - 48)
    }
}

/// A number in decimal has its value, consists of digits, and has no zero in front.
pub proof fn law_decimal(n: nat)
    ensures
        ({
            let s = text::dec(n);
            &&& s.len() > 0
            &&& value(s) == n
            &&& forall|i: int| 0 <= i < s.len() ==> is_decimal(#[trigger] s[i])
            &&& s.len() > 1 ==> s[0] as int != 48
            &&& s.len() == 1 <==> n < 10
        }),
    decreases n,
{
    let s = text::dec(n);
    if n < 10 {
        assert(s.drop_last() =~= Seq::empty());
        assert(value(s.drop_last()) == 0);
    } else {
        let t = text::dec(n / 10);
        law_decimal(n / 10);
        assert(s.drop_last() =~= t);
        assert(s[0] == t[0]);
        if t.len() == 1 {
            assert(t.drop_last() =~= Seq::empty());
            assert(value(t.drop_last()) == 0);
            assert(value(t) == t[0] as int - 48);
        }
        assert forall|i: int| 0 <= i < s.len() implies is_decimal(#[trigger] s[i]) by {
            if i < t.len() {
                assert(s[i] == t[i]);
            }
        }
    }
}

/// A number in hexadecimal has its value, consists of digits in lower case, and has no zero in
/// front.
pub proof fn law_hexadecimal(n: nat)
    ensures
        ({
            let s = text::hex(n);
            &&& s.len() > 0
            &&& files::hex_value(s) == n
            &&& forall|i: int| 0 <= i < s.len() ==> is_hexadecimal(#[trigger] s[i])
            &&& s.len() > 1 ==> s[0] as int != 48
            &&& s.len() == 1 <==> n < 16
        }),
    decreases n,
{
    let s = text::hex(n);
    if n < 16 {
        assert(s.drop_last() =~= Seq::empty());
        assert(files::hex_value(s.drop_last()) == 0);
    } else {
        let t = text::hex(n / 16);
        law_hexadecimal(n / 16);
        assert(s.drop_last() =~= t);
        assert(s[0] == t[0]);
        if t.len() == 1 {
            assert(t.drop_last() =~= Seq::empty());
            assert(files::hex_value(t.drop_last()) == 0);
            assert(files::hex_value(t) == files::digit_value(t[0]));
        }
        assert forall|i: int| 0 <= i < s.len() implies is_hexadecimal(#[trigger] s[i]) by {
            if i < t.len() {
                assert(s[i] == t[i]);
            }
        }
    }
}

/// Digit `i` of a hexadecimal number of fixed width, the highest one first.
pub proof fn law_hexadecimal_digits(n: nat, width: nat)
    ensures
        ({
            let s = text::hex_fixed(n, width);
            &&& s.len() == width
            &&& forall|i: int| 0 <= i < s.len() ==> is_hexadecimal(#[trigger] s[i])
        }),
    decreases width,
{
    if width > 0 {
        let t = text::hex_fixed(n / 16, (width - 1) as nat);
        law_hexadecimal_digits(n / 16, (width - 1) as nat);
        let s = text::hex_fixed(n, width);
        assert forall|i: int| 0 <= i < s.len() implies is_hexadecimal(#[trigger] s[i]) by {
            if i < t.len() {
                assert(s[i] == t[i]);
            }
        }
    }
}

/// A count of hundredths has a point before its last two digits.
pub proof fn law_two_decimals(hundredths: nat)
    ensures
        ({
            let s = text::two_decimals(hundredths);
            let n = s.len() as int;
            &&& n >= 4
            &&& s[n - 3] == '.'
            &&& is_decimal(s[n - 2])
            &&& is_decimal(s[n - 1])
            &&& s.take(n - 3) == text::dec(hundredths / 100)
            &&& value(s.take(n - 3)) * 100 + (s[n - 2] as int - 48) * 10 + (s[n - 1] as int - 48)
                == hundredths
        }),
{
    reveal_strlit(".");
    let s = text::two_decimals(hundredths);
    let n = s.len() as int;
    let whole = text::dec(hundredths / 100);
    let tens = hundredths / 10 % 10;
    let ones = hundredths % 10;
    law_decimal(hundredths / 100);
    lemma_hundredths(hundredths);
    assert(n == whole.len() + 3);
    assert(s[n - 3] == "."@[0]);
    assert(s[n - 2] == text::digit(tens as int));
    assert(s[n - 1] == text::digit(ones as int));
    assert(s.take(n - 3) =~= whole);
}

proof fn lemma_hundredths(h: nat)
    ensures
        h / 100 * 100 + h / 10 % 10 * 10 + h % 10 == h,
{
    assert(h / 10 / 10 == h / 100);
}

/// Two to the power of `k`.
pub open spec fn doubled(k: nat) -> nat
    decreases k,
{
    if k == 0 {
        1
    } else {
        2 * doubled((k - 1) as nat)
    }
}

/// `q` is the integer next to `a / b`; of two that are as near, the even one.
pub open spec fn nearest(a: int, b: int, q: int) -> bool {
    let off = 2 * (a - q * b);
    &&& b > 0
    &&& -b <= off <= b
    &&& off == b || off == -b ==> q % 2 == 0
}

/// With a significand `s` of 24 bits and `k` of them after the point, `s` stands for `n / d`, and
/// `h` for the hundredths of that.
pub open spec fn is_single(n: int, d: int, h: int, k: nat, s: int) -> bool {
    &&& d * 0x80_0000 <= n * doubled(k) < d * 0x100_0000
    &&& nearest(n * doubled(k), d, s)
    &&& nearest(100 * s, doubled(k) as int, h)
}

proof fn lemma_nearest(a: nat, b: nat)
    requires
        b > 0,
    ensures
        nearest(a as int, b as int, text::round_half_even(a, b) as int),
{
    let q = a / b;
    let r = a % b;
    vstd::arithmetic::div_mod::lemma_fundamental_div_mod(a as int, b as int);
    assert(a == q * b + r) by (nonlinear_arith)
        requires
            a == b * q + r,
    ;
    assert((q + 1) * b == q * b + b) by (nonlinear_arith);
}

proof fn lemma_scaled(num: nat, one: nat, d: nat) -> (k: nat)
    requires
        0 < d,
        0 < num < d * 0x100_0000,
    ensures
        text::normalized(num, one, d).0 == num * doubled(k),
        text::normalized(num, one, d).1 == one * doubled(k),
        d * 0x80_0000 <= num * doubled(k) < d * 0x100_0000,
    decreases
            if num < d * 0x80_0000 {
                d * 0x80_0000 - num
            } else {
                0
            },
{
    if num >= d * 0x80_0000 {
        assert(num * doubled(0) == num) by (nonlinear_arith)
            requires
                doubled(0) == 1,
        ;
        assert(one * doubled(0) == one) by (nonlinear_arith)
            requires
                doubled(0) == 1,
        ;
        0
    } else {
        let k = lemma_scaled(2 * num, 2 * one, d);
        let p = doubled(k);
        assert(doubled(k + 1) == 2 * p);
        assert((2 * num) * p == num * (2 * p)) by (nonlinear_arith);
        assert((2 * one) * p == one * (2 * p)) by (nonlinear_arith);
        k + 1
    }
}

proof fn lemma_doubled(k: nat)
    ensures
        doubled(k) > 0,
    decreases k,
{
    if k > 0 {
        lemma_doubled((k - 1) as nat);
    }
}

/// The hundredths of a quotient go through a number of single precision: both times the nearest
/// value is taken, and of two that are as near, the even one.
pub proof fn law_single_precision(n: nat, d: nat)
    requires
        0 < d,
        0 < n < d * 0x100_0000,
    ensures
        exists|k: nat, s: int|
            #[trigger] is_single(n as int, d as int, text::single_hundredths(n, d) as int, k, s),
{
    let k = lemma_scaled(n, 1, d);
    let scaled = text::normalized(n, 1, d);
    let s = text::round_half_even(scaled.0, d);
    lemma_doubled(k);
    lemma_nearest(scaled.0, d);
    assert(scaled.1 == doubled(k));
    lemma_nearest(s * 100, scaled.1);
    assert(is_single(n as int, d as int, text::single_hundredths(n, d) as int, k, s as int));
}

/// How long a line state lasted is given in the unit that suits it, with two decimals, and not at
/// all from ten milliseconds on.
pub proof fn law_duration(delta: nat)
    ensures
        messages::duration(delta as int) == (if delta < 1000 {
            " ("@ + text::dec(delta) + ".00"@ + " ns)"@
        } else if delta < 1_000_000 {
            " ("@ + text::two_decimals(text::single_hundredths(delta, 1000)) + " us)"@
        } else if delta < 10_000_000 {
            " ("@ + text::two_decimals(text::single_hundredths(delta, 1_000_000)) + " ms)"@
        } else {
            Seq::empty()
        }),
{
    if delta < 1000 {
        reveal_strlit(".");
        reveal_strlit(".00");
        assert(delta * 100 / 100 == delta);
        assert(text::two_decimals(delta * 100) =~= text::dec(delta) + ".00"@);
        assert(" ("@ + text::two_decimals(delta * 100) + " ns)"@ =~= " ("@ + text::dec(delta)
            + ".00"@ + " ns)"@);
    }
}

/// What is said of a line that is alone in not being at zero: which of the comparators see it.
pub open spec fn seen_by(level: int) -> Seq<char> {
    if level == 1 {
        " [both]"@
    } else if level == 2 {
        " [single]"@
    } else {
        ""@
    }
}

/// The text of a line state, by the levels of the two lines.
pub proof fn law_line_state_text(dp: int, dm: int, low_speed: bool, delta: int)
    requires
        0 <= dp < 4,
        0 <= dm < 4,
    ensures
        messages::line_state(4 * dm + dp, low_speed, delta) == "Line state: "@ + (if dp == 0 && dm
            == 0 {
            "SE0"@
        } else if dp == 0 && low_speed {
            "J"@ + seen_by(dm)
        } else if dp == 0 {
            "K"@ + seen_by(dm)
        } else if dm == 0 && low_speed {
            "K"@ + seen_by(dp)
        } else if dm == 0 {
            "J"@ + seen_by(dp)
        } else {
            "Undefined (DP="@ + text::dec(dp as nat) + " / DM="@ + text::dec(dm as nat) + ")"@
        }) + messages::duration(delta),
{
    reveal_strlit("");
    let ls = 4 * dm + dp;
    assert(ls % 4 == dp && ls / 4 % 4 == dm);
    let name = messages::line_state_name(ls, low_speed);
    let level = messages::level(messages::line_state_level(ls));
    assert("Line state: "@ + name + level =~= "Line state: "@ + (name + level));
    if dp == 0 && dm == 0 {
        assert(name + level =~= "SE0"@);
    } else if dp != 0 && dm != 0 {
        assert(name + level =~= name);
    } else {
        assert(level =~= seen_by(dp + dm));
    }
}

/// The other texts.
pub proof fn law_message_texts(n: nat, a: nat, b: nat)
    ensures
        messages::folded(n as int) == (if n == 1 {
            "Folded empty frame"@
        } else {
            "Folded "@ + text::dec(n) + " empty frames"@
        }),
        messages::trigger_input(n as int) == "Trigger input = "@ + text::dec(n),
        messages::vbus(true) == "VBUS ON"@,
        messages::vbus(false) == "VBUS OFF"@,
        messages::detected_speed(0) == "Detected speed: Low-Speed"@,
        messages::detected_speed(1) == "Detected speed: Full-Speed"@,
        messages::detected_speed(2) == "Detected speed: High-Speed"@,
        messages::detected_speed(3) == "--- Bus Reset ---"@,
        messages::wrong_toggle(a as int, b as int) == "Error: received toggle value "@ + text::dec(
            a,
        ) + ", expected "@ + text::dec(b),
        messages::invalid_size(n as int) == "Error: invalid data size ("@ + text::dec(n) + ")"@,
{
}

/// Two digits and a space stand for a byte.
pub open spec fn shows(s: Seq<char>, at: int, b: u8) -> bool {
    &&& is_hexadecimal(s[at])
    &&& is_hexadecimal(s[at + 1])
    &&& files::digit_value(s[at]) * 16 + files::digit_value(s[at + 1]) == b
    &&& s[at + 2] == ' '
}

proof fn lemma_dump(bytes: Seq<u8>)
    ensures
        ({
            let s = messages::hex_dump(bytes);
            &&& s.len() == 3 * bytes.len()
            &&& forall|i: int|
                0 <= i < bytes.len() ==> #[trigger] shows(s, 3 * i, bytes[i])
        }),
    decreases bytes.len(),
{
    if bytes.len() > 0 {
        let before = bytes.drop_last();
        let t = messages::hex_dump(before);
        let s = messages::hex_dump(bytes);
        let b = bytes.last() as nat;
        lemma_dump(before);
        reveal_strlit(" ");
        let digits = text::hex_fixed(b, 2);
        reveal_with_fuel(text::hex_fixed, 3);
        assert(digits =~= seq![text::digit((b / 16 % 16) as int), text::digit((b % 16) as int)]);
        assert(b / 16 % 16 == b / 16);
        let n = bytes.len() - 1;
        assert(s[3 * n] == digits[0] && s[3 * n + 1] == digits[1] && s[3 * n + 2] == ' ');
        assert forall|i: int| 0 <= i < bytes.len() implies #[trigger] shows(
            s,
            3 * i,
            bytes[i],
        ) by {
            if i < n {
                assert(shows(t, 3 * i, before[i]));
                assert(before[i] == bytes[i]);
                assert(s[3 * i] == t[3 * i]);
                assert(s[3 * i + 1] == t[3 * i + 1]);
                assert(s[3 * i + 2] == t[3 * i + 2]);
            }
        }
    }
}

/// A header is shown with two digits and a space for each of its bytes.
pub proof fn law_header_shown(header: Seq<u8>)
    ensures
        ({
            let s = messages::packet_header(header);
            let shown = s.skip(15);
            &&& s.take(15) == "Packet header: "@
            &&& shown.len() == 3 * header.len()
            &&& forall|i: int|
                0 <= i < header.len() ==> #[trigger] shows(shown, 3 * i, header[i])
        }),
{
    reveal_strlit("Packet header: ");
    lemma_dump(header);
    assert(messages::packet_header(header).skip(15) =~= messages::hex_dump(header));
    assert(messages::packet_header(header).take(15) =~= "Packet header: "@);
}

/// What is said when the FPGA or a file for it is refused.
pub proof fn law_fpga_error_texts(idcode: u32)
    ensures
        ({
            let e = FpgaError::Idcode { idcode };
            e.text() == "incorrect FPGA IDCODE (0x"@ + text::hex_fixed(idcode as nat, 8) + ")"@
        }),
        FpgaError::NoSignature.text() == "malformed BIT file: device signature not found"@,
        FpgaError::Busy.text() == "poll_busy_flag: busy"@,
        FpgaError::Fail.text() == "poll_busy_flag: fail"@,
        FpgaError::Configuration.text() == "configuration verification failed"@,
        FpgaError::FeatureRow.text() == "Feature Row verification failed"@,
        FpgaError::Feabits.text() == "FEABITS verification failed"@,
        forall|error: JedError|
            (FpgaError::Jed { error }).text() == #[trigger] error.text(),
        JedError::NoSignature.text() == "malformed JED file: device signature not found"@,
        JedError::NoConfiguration.text() == "malformed JED file: no 'L000000' found"@,
        JedError::ConfigurationTooBig.text()
            == "malformed JED file: configuration data is too big"@,
        JedError::NoTerminator.text() == "malformed JED file: no field terminator found"@,
        JedError::ConfigurationSize.text()
            == "malformed JED file: size of configuration data must be a multiple of 128"@,
        JedError::NoFeatureRow.text() == "malformed JED file: no feature row found"@,
        JedError::FeatureRowTooBig.text() == "malformed JED file: feature row data is too big"@,
        JedError::FeatureRowSize.text() == "malformed JED file: invalid feature row size"@,
{
}

/// What is said when firmware or a request to the EEPROM is refused.
pub proof fn law_firmware_error_texts(addr: usize, size: usize)
    ensures
        Fx2lpError::SramTooBig.text() == "sram_upload: file is too big"@,
        Fx2lpError::SramVerification.text() == "sram_upload: verification failed"@,
        Fx2lpError::EepromTooBig.text() == "eeprom_upload: file is too big"@,
        Fx2lpError::EepromVerification.text() == "eeprom_upload: verification failed"@,
        ({
            let e = Fx2lpError::EepromRequest { addr, size };
            e.text() == "eeprom: invalid request (addr=0x"@ + text::hex(addr as nat) + ", size="@
                + text::dec(size as nat) + ")"@
        }),
{
}

} // verus!
