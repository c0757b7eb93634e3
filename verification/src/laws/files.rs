//! What is read from files, and what is made of it.

use vstd::prelude::*;
use vstd::utf8::*;

use crate::cli;
use crate::cli::SERIAL_SIZE;
use crate::fx2lp;
use crate::fx2lp::{EEPROM_PAGE_SIZE, FX2LP_FOOTER, FX2LP_HEADER, FX2LP_SIZE};
use crate::jed;
use crate::jed::{Jed, JedError, FLASH_ROW_SIZE, MAX_CONFIG_SIZE};
use crate::jtag;
use crate::text;

verus! {

/// Bits are read in order, wherever the text is cut.
pub proof fn law_bits_join(a: Seq<u8>, b: Seq<u8>)
    ensures
        jed::bits(a + b) == jed::bits(a) + jed::bits(b),
    decreases b.len(),
{
    if b.len() == 0 {
        assert(a + b =~= a);
        assert(jed::bits(a) + jed::bits(b) =~= jed::bits(a));
    } else {
        law_bits_join(a, b.drop_last());
        assert((a + b).drop_last() =~= a + b.drop_last());
        assert(jed::bits(a + b) =~= jed::bits(a) + jed::bits(b));
    }
}

/// Characters that stand for no bit, such as spaces and the ends of lines, do not count.
pub proof fn law_other_characters_ignored(a: Seq<u8>, other: Seq<u8>, b: Seq<u8>)
    requires
        forall|i: int| 0 <= i < other.len() ==> !jed::is_bit(#[trigger] other[i]),
    ensures
        jed::bits(a + other + b) == jed::bits(a + b),
{
    lemma_no_bits(other);
    law_bits_join(a + other, b);
    law_bits_join(a, other);
    law_bits_join(a, b);
    assert(jed::bits(a) + Seq::<u8>::empty() =~= jed::bits(a));
}

proof fn lemma_no_bits(s: Seq<u8>)
    requires
        forall|i: int| 0 <= i < s.len() ==> !jed::is_bit(#[trigger] s[i]),
    ensures
        jed::bits(s) == Seq::<u8>::empty(),
    decreases s.len(),
{
    if s.len() > 0 {
        assert(!jed::is_bit(s[s.len() - 1]));
        lemma_no_bits(s.drop_last());
    }
}

/// Every bit is zero or one.
proof fn lemma_bits_are_bits(s: Seq<u8>)
    ensures
        forall|i: int| 0 <= i < jed::bits(s).len() ==> #[trigger] jed::bits(s)[i] <= 1,
    decreases s.len(),
{
    if s.len() > 0 {
        let before = jed::bits(s.drop_last());
        lemma_bits_are_bits(s.drop_last());
        assert forall|i: int| 0 <= i < jed::bits(s).len() implies #[trigger] jed::bits(s)[i]
            <= 1 by {
            if i < before.len() {
                assert(before[i] <= 1);
            }
        }
    }
}

/// Each bit can be read back from the bytes it was packed into.
pub proof fn law_bits_read_back(b: Seq<u8>, i: int)
    requires
        forall|k: int| 0 <= k < b.len() ==> #[trigger] b[k] <= 1,
        0 <= i < b.len() / 8 * 8,
    ensures
        jtag::bit(jed::pack_bits(b)[i / 8], i % 8) == b[i],
{
    let k = i / 8;
    let s = b.subrange(8 * k, 8 * k + 8);
    assert forall|j: int| 0 <= j < 8 implies #[trigger] s[j] <= 1 by {
        assert(s[j] == b[8 * k + j]);
    }
    lemma_pack8(s, i % 8);
    assert(jed::pack_bits(b)[k] == jed::pack8(s));
    assert(s[i % 8] == b[i]);
}

proof fn lemma_pack8(b: Seq<u8>, i: int)
    requires
        b.len() == 8,
        forall|k: int| 0 <= k < 8 ==> #[trigger] b[k] <= 1,
        0 <= i < 8,
    ensures
        jtag::bit(jed::pack8(b), i) == b[i],
{
    let b0 = b[0];
    let b1 = b[1];
    let b2 = b[2];
    let b3 = b[3];
    let b4 = b[4];
    let b5 = b[5];
    let b6 = b[6];
    let b7 = b[7];
    let n = i as u8;
    let p = b0 | (b1 << 1) | (b2 << 2) | (b3 << 3) | (b4 << 4) | (b5 << 5) | (b6 << 6) | (b7 << 7);
    assert(b0 <= 1 && b1 <= 1 && b2 <= 1 && b3 <= 1 && b4 <= 1 && b5 <= 1 && b6 <= 1 && b7 <= 1
        && p == b0 | (b1 << 1) | (b2 << 2) | (b3 << 3) | (b4 << 4) | (b5 << 5) | (b6 << 6) | (b7
        << 7) && n < 8 ==> (p >> n) & 1 == (if n == 0 {
        b0
    } else if n == 1 {
        b1
    } else if n == 2 {
        b2
    } else if n == 3 {
        b3
    } else if n == 4 {
        b4
    } else if n == 5 {
        b5
    } else if n == 6 {
        b6
    } else {
        b7
    })) by (bit_vector);
}

/// A JED file that is accepted has whole rows of configuration, up to the most that there may be,
/// eight bytes of feature row and two of feature bits.
pub proof fn law_jed_sizes(data: Seq<u8>)
    ensures
        jed::parse_jed(data) matches Ok(file) ==> {
            &&& file.config.len() % (FLASH_ROW_SIZE as nat / 8) == 0
            &&& file.config.len() <= MAX_CONFIG_SIZE
            &&& file.feature.len() == 8
            &&& file.feabits.len() == 2
        },
{
}

/// Bit `i` of the configuration is bit `i` of the field after `L000000`.
pub proof fn law_configuration_bits(data: Seq<u8>, file: Jed, start: int, i: int)
    requires
        jed::parse_jed(data) == Ok::<Jed, JedError>(file),
        jed::first_occurrence(data, encode_utf8("L000000"@)) == Some(start),
        0 <= i < 8 * file.config.len(),
    ensures
        jtag::bit(file.config[i / 8], i % 8) == jed::field_bits(
            data,
            start + encode_utf8("L000000"@).len(),
        )[i],
{
    let offset = start + encode_utf8("L000000"@).len();
    let field = jed::field_bits(data, offset);
    lemma_bits_are_bits(data.subrange(offset, jed::field_end(data, offset)));
    law_bits_read_back(field, i);
}

/// Bit `i` of the field after `NOTE FEATURE_ROW*` is bit `i` of the feature row, or, after its
/// 64 bits, one of the feature bits.
pub proof fn law_feature_bits(data: Seq<u8>, file: Jed, start: int, i: int)
    requires
        jed::parse_jed(data) == Ok::<Jed, JedError>(file),
        jed::first_occurrence(data, encode_utf8("NOTE FEATURE_ROW*"@)) == Some(start),
        0 <= i < 80,
    ensures
        jed::field_bits(data, start + encode_utf8("NOTE FEATURE_ROW*"@).len())[i] == (if i < 64 {
            jtag::bit(file.feature[i / 8], i % 8)
        } else {
            jtag::bit(file.feabits[(i - 64) / 8], i % 8)
        }),
{
    let offset = start + encode_utf8("NOTE FEATURE_ROW*"@).len();
    let field = jed::field_bits(data, offset);
    lemma_bits_are_bits(data.subrange(offset, jed::field_end(data, offset)));
    if i < 64 {
        law_bits_read_back(field.take(64), i);
    } else {
        law_bits_read_back(field.skip(64), i - 64);
    }
}

/// Firmware fits in the EEPROM if and only if it leaves room for what the boot loader needs.
pub proof fn law_eeprom_capacity(len: int)
    requires
        0 <= len,
    ensures
        fx2lp::padded_size(len) <= FX2LP_SIZE <==> len <= FX2LP_SIZE - FX2LP_HEADER - FX2LP_FOOTER,
{
}

/// The boot loader finds in the EEPROM the size of the firmware and after it the firmware, and
/// then the end of the reset. The image consists of whole pages.
pub proof fn law_eeprom_image(data: Seq<u8>)
    requires
        fx2lp::padded_size(data.len() as int) <= FX2LP_SIZE,
    ensures
        ({
            let image = fx2lp::eeprom_image(data);
            let end = FX2LP_HEADER + data.len();
            &&& image.len() == fx2lp::padded_size(data.len() as int)
            &&& image.len() % EEPROM_PAGE_SIZE as nat == 0
            &&& image[8] * 256 + image[9] == data.len()
            &&& image.subrange(FX2LP_HEADER as int, end) == data
            &&& image.subrange(end, end + FX2LP_FOOTER) == fx2lp::eeprom_footer()
        }),
{
    let image = fx2lp::eeprom_image(data);
    let end = FX2LP_HEADER + data.len();
    let n = data.len() as int;
    assert(image[8] == fx2lp::eeprom_header(n)[8]);
    assert(image[9] == fx2lp::eeprom_header(n)[9]);
    assert(image.subrange(FX2LP_HEADER as int, end) =~= data);
    assert(image.subrange(end, end + FX2LP_FOOTER) =~= fx2lp::eeprom_footer());
}

/// The value of a hexadecimal digit.
pub open spec fn digit_value(c: char) -> int {
    if c as int >= 97 {
        c as int - 87
    } else {
        c as int - 48
    }
}

/// The value of hexadecimal digits.
pub open spec fn hex_value(s: Seq<char>) -> nat
    decreases s.len(),
{
    if s.len() == 0 {
        0
    } else {
        (16 * hex_value(s.drop_last()) + digit_value(s.last())) as nat
    }
}

/// Sixteen to the power of `n`.
pub open spec fn pow16(n: nat) -> nat
    decreases n,
{
    if n == 0 {
        1
    } else {
        16 * pow16((n - 1) as nat)
    }
}

/// Hexadecimal digits have the value that they were made of, as far as they reach.
pub proof fn law_hex_read_back(n: nat, width: nat)
    ensures
        text::hex_fixed(n, width).len() == width,
        hex_value(text::hex_fixed(n, width)) == n % pow16(width),
        pow16(width) > 0,
    decreases width,
{
    if width > 0 {
        let w = (width - 1) as nat;
        law_hex_read_back(n / 16, w);
        let p = pow16(w);
        let s = text::hex_fixed(n, width);
        assert(s.drop_last() =~= text::hex_fixed(n / 16, w));
        assert(digit_value(s.last()) == n % 16);
        assert(n % (16 * p) == 16 * ((n / 16) % p) + n % 16) by (nonlinear_arith)
            requires
                p > 0,
        {
            vstd::arithmetic::div_mod::lemma_mod_breakdown(n as int, 16, p as int);
        }
    }
}

/// A serial number is put in place of the placeholder and nothing else changes; its value is
/// that of the low 56 bits of the trace number.
pub proof fn law_serial_number(data: Seq<u8>, traceid: u64, pos: int)
    requires
        jed::first_occurrence(data, cli::placeholder()) == Some(pos),
    ensures
        ({
            let serial = cli::serial_number(traceid);
            let r = cli::with_serial(data, pos, serial);
            &&& r.len() == data.len()
            &&& r.subrange(pos, pos + SERIAL_SIZE) == encode_utf8(serial)
            &&& forall|i: int|
                0 <= i < pos || pos + SERIAL_SIZE <= i < data.len() ==> #[trigger] r[i] == data[i]
            &&& hex_value(serial) == traceid % 0x100_0000_0000_0000
        }),
{
    let serial = cli::serial_number(traceid);
    let r = cli::with_serial(data, pos, serial);
    reveal_strlit("[-----SN-----]");
    is_ascii_chars_encode_utf8("[-----SN-----]"@);
    assert(jed::occurs_first_at(data, cli::placeholder(), pos));
    law_hex_read_back(traceid as nat, SERIAL_SIZE as nat);
    lemma_hex_is_ascii(traceid as nat, SERIAL_SIZE as nat);
    is_ascii_chars_encode_utf8(serial);
    assert(r.subrange(pos, pos + SERIAL_SIZE) =~= encode_utf8(serial));
    assert(pow16(14) == 0x100_0000_0000_0000) by {
        reveal_with_fuel(pow16, 15);
    }
}

proof fn lemma_hex_is_ascii(n: nat, width: nat)
    ensures
        is_ascii_chars(text::hex_fixed(n, width)),
    decreases width,
{
    if width > 0 {
        lemma_hex_is_ascii(n / 16, (width - 1) as nat);
    }
}

} // verus!
