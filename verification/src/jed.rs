//! The files that an FPGA bitstream comes in.

use vstd::prelude::*;
use vstd::string::*;
use vstd::utf8::*;

verus! {

/// Most bytes of configuration data.
pub const MAX_CONFIG_SIZE: usize = 524_288;

/// Bits in a row of the flash memory.
pub const FLASH_ROW_SIZE: usize = 128;

/// The part of a file that must name the device.
pub const SIGNATURE_AREA: usize = 1024;

/// Bits in the feature row.
pub const FEATURE_SIZE: usize = 64;

/// Feature bits after the feature row.
pub const FEABITS_SIZE: usize = 16;

/// `needle` stands in `haystack` at index `i`.
pub open spec fn occurs_at(haystack: Seq<u8>, needle: Seq<u8>, i: int) -> bool {
    &&& 0 <= i
    &&& i + needle.len() <= haystack.len()
    &&& haystack.subrange(i, i + needle.len()) == needle
}

/// `needle` stands in `haystack` at index `i`, and nowhere before.
pub open spec fn occurs_first_at(haystack: Seq<u8>, needle: Seq<u8>, i: int) -> bool {
    &&& occurs_at(haystack, needle, i)
    &&& forall|k: int| k < i ==> !#[trigger] occurs_at(haystack, needle, k)
}

/// Where `needle` first stands in `haystack`.
pub open spec fn first_occurrence(haystack: Seq<u8>, needle: Seq<u8>) -> Option<int> {
    if exists|i: int| occurs_first_at(haystack, needle, i) {
        Some(choose|i: int| occurs_first_at(haystack, needle, i))
    } else {
        None
    }
}

/// The index at which `needle` first stands in `haystack`.
pub fn find_bytes(haystack: &[u8], needle: &[u8]) -> (r: Option<usize>)
    requires
        needle@.len() > 0,
    ensures
        match r {
            Some(i) => occurs_first_at(haystack@, needle@, i as int),
            None => forall|k: int| !occurs_at(haystack@, needle@, k),
        },
        match (r, first_occurrence(haystack@, needle@)) {
            (Some(i), Some(k)) => i == k,
            (None, None) => true,
            _ => false,
        },
{
    let mut i: usize = 0;
    while haystack.len() - i >= needle.len()
        invariant
            needle@.len() > 0,
            i <= haystack@.len(),
            forall|k: int| k < i ==> !#[trigger] occurs_at(haystack@, needle@, k),
        decreases haystack@.len() - i,
    {
        if stands_at(haystack, needle, i) {
            assert(occurs_first_at(haystack@, needle@, i as int));
            let ghost found = choose|k: int| occurs_first_at(haystack@, needle@, k);
            assert(found == i);
            return Some(i);
        }
        i += 1;
    }
    None
}

fn stands_at(haystack: &[u8], needle: &[u8], i: usize) -> (r: bool)
    requires
        i + needle@.len() <= haystack@.len(),
    ensures
        r == occurs_at(haystack@, needle@, i as int),
{
    let ghost window = haystack@.subrange(i as int, i + needle@.len());
    let n = haystack.len();
    let mut k: usize = 0;
    while k < needle.len()
        invariant
            n == haystack@.len(),
            i + needle@.len() <= n,
            k <= needle@.len(),
            window == haystack@.subrange(i as int, i + needle@.len()),
            forall|j: int| 0 <= j < k ==> window[j] == needle@[j],
        decreases needle@.len() - k,
    {
        if haystack[i + k] != needle[k] {
            assert(window[k as int] != needle@[k as int]);
            return false;
        }
        k += 1;
    }
    assert(window =~= needle@);
    true
}

/// The beginning of the file names the device.
pub open spec fn names_device(data: Seq<u8>) -> bool {
    &&& data.len() >= SIGNATURE_AREA
    &&& exists|i: int|
        occurs_at(data.take(SIGNATURE_AREA as int), encode_utf8("LCMXO2-2000HC"@), i)
}

/// Whether the beginning of the file names the device.
pub fn bitstream_valid(data: &[u8]) -> (r: bool)
    ensures
        r == names_device(data@),
{
    if data.len() < SIGNATURE_AREA {
        return false;
    }
    let (head, tail) = data.split_at(SIGNATURE_AREA);
    assert(head@ =~= data@.take(SIGNATURE_AREA as int));
    let signature = "LCMXO2-2000HC";
    proof {
        reveal_strlit("LCMXO2-2000HC");
        is_ascii_chars_encode_utf8(signature@);
    }
    find_bytes(head, signature.as_bytes()).is_some()
}

/// The index of the `*` that ends the field at `offset`, or the end of the file.
pub open spec fn field_end(data: Seq<u8>, offset: int) -> int
    decreases data.len() - offset,
{
    if offset >= data.len() {
        data.len() as int
    } else if data[offset] == 0x2a {
        offset
    } else {
        field_end(data, offset + 1)
    }
}

/// A character that stands for a bit: `0` or `1`.
pub open spec fn is_bit(c: u8) -> bool {
    c == 0x30 || c == 0x31
}

/// The bits that a text spells; other characters do not count.
pub open spec fn bits(text: Seq<u8>) -> Seq<u8>
    decreases text.len(),
{
    if text.len() == 0 {
        Seq::empty()
    } else if is_bit(text.last()) {
        bits(text.drop_last()).push((text.last() - 0x30) as u8)
    } else {
        bits(text.drop_last())
    }
}

/// The bits of the field at `offset`.
pub open spec fn field_bits(data: Seq<u8>, offset: int) -> Seq<u8> {
    bits(data.subrange(offset, field_end(data, offset)))
}

/// Eight bits in a byte, the first in the lowest place.
pub open spec fn pack8(b: Seq<u8>) -> u8 {
    b[0] | (b[1] << 1) | (b[2] << 2) | (b[3] << 3) | (b[4] << 4) | (b[5] << 5) | (b[6] << 6) | (
    b[7] << 7)
}

/// Bits in bytes, the first in the lowest place of the first byte.
pub open spec fn pack_bits(b: Seq<u8>) -> Seq<u8> {
    Seq::new(b.len() / 8, |k: int| pack8(b.subrange(8 * k, 8 * k + 8)))
}

/// Why a file is refused.
#[derive(Clone, Copy, PartialEq, Eq, Structural, Debug)]
pub enum JedError {
    NoSignature,
    NoConfiguration,
    ConfigurationTooBig,
    NoTerminator,
    ConfigurationSize,
    NoFeatureRow,
    FeatureRowTooBig,
    FeatureRowSize,
}

impl JedError {
    /// The error in words.
    pub open spec fn text(self) -> Seq<char> {
        match self {
            JedError::NoSignature => "malformed JED file: device signature not found"@,
            JedError::NoConfiguration => "malformed JED file: no 'L000000' found"@,
            JedError::ConfigurationTooBig => "malformed JED file: configuration data is too big"@,
            JedError::NoTerminator => "malformed JED file: no field terminator found"@,
            JedError::ConfigurationSize => "malformed JED file: size of configuration data must be a multiple of 128"@,
            JedError::NoFeatureRow => "malformed JED file: no feature row found"@,
            JedError::FeatureRowTooBig => "malformed JED file: feature row data is too big"@,
            JedError::FeatureRowSize => "malformed JED file: invalid feature row size"@,
        }
    }

    /// The error in words.
    pub fn message(&self) -> (s: &'static str)
        ensures
            s@ == self.text(),
    {
        match self {
            JedError::NoSignature => "malformed JED file: device signature not found",
            JedError::NoConfiguration => "malformed JED file: no 'L000000' found",
            JedError::ConfigurationTooBig => "malformed JED file: configuration data is too big",
            JedError::NoTerminator => "malformed JED file: no field terminator found",
            JedError::ConfigurationSize => "malformed JED file: size of configuration data must be a multiple of 128",
            JedError::NoFeatureRow => "malformed JED file: no feature row found",
            JedError::FeatureRowTooBig => "malformed JED file: feature row data is too big",
            JedError::FeatureRowSize => "malformed JED file: invalid feature row size",
        }
    }
}

/// What a JED file says, in mathematical terms.
pub struct Jed {
    pub config: Seq<u8>,
    pub feature: Seq<u8>,
    pub feabits: Seq<u8>,
}

/// What the feature row field says.
pub open spec fn parse_feature_row(data: Seq<u8>, config: Seq<u8>) -> Result<Jed, JedError> {
    match first_occurrence(data, encode_utf8("NOTE FEATURE_ROW*"@)) {
        None => Err(JedError::NoFeatureRow),
        Some(start) => {
            let offset = start + encode_utf8("NOTE FEATURE_ROW*"@).len();
            let row = field_bits(data, offset);
            if row.len() > FEATURE_SIZE + FEABITS_SIZE {
                Err(JedError::FeatureRowTooBig)
            } else if field_end(data, offset) == data.len() {
                Err(JedError::NoTerminator)
            } else if row.len() != FEATURE_SIZE + FEABITS_SIZE {
                Err(JedError::FeatureRowSize)
            } else {
                Ok(
                    Jed {
                        config,
                        feature: pack_bits(row.take(FEATURE_SIZE as int)),
                        feabits: pack_bits(row.skip(FEATURE_SIZE as int)),
                    },
                )
            }
        },
    }
}

/// What a JED file says: the bits of the field after `L000000` are the configuration, those of
/// the field after `NOTE FEATURE_ROW*` the feature row and the feature bits.
pub open spec fn parse_jed(data: Seq<u8>) -> Result<Jed, JedError> {
    if !names_device(data) {
        Err(JedError::NoSignature)
    } else {
        match first_occurrence(data, encode_utf8("L000000"@)) {
            None => Err(JedError::NoConfiguration),
            Some(start) => {
                let offset = start + encode_utf8("L000000"@).len();
                let config = field_bits(data, offset);
                if config.len() > MAX_CONFIG_SIZE * 8 {
                    Err(JedError::ConfigurationTooBig)
                } else if field_end(data, offset) == data.len() {
                    Err(JedError::NoTerminator)
                } else if config.len() % FLASH_ROW_SIZE as nat != 0 {
                    Err(JedError::ConfigurationSize)
                } else {
                    parse_feature_row(data, pack_bits(config))
                }
            },
        }
    }
}

/// What a JED file says.
pub struct JedFile {
    /// The configuration, sixteen bytes to a row of the flash memory.
    pub config: Vec<u8>,
    /// The feature row, eight bytes.
    pub feature: Vec<u8>,
    /// The feature bits, two bytes.
    pub feabits: Vec<u8>,
}

impl View for JedFile {
    type V = Jed;

    open spec fn view(&self) -> Jed {
        Jed { config: self.config@, feature: self.feature@, feabits: self.feabits@ }
    }
}

/// More text spells no fewer bits.
proof fn lemma_bits_grow(text: Seq<u8>, n: int)
    requires
        0 <= n <= text.len(),
    ensures
        bits(text.take(n)).len() <= bits(text).len(),
    decreases text.len(),
{
    if n == text.len() {
        assert(text.take(n) =~= text);
    } else {
        assert(text.drop_last().take(n) =~= text.take(n));
        lemma_bits_grow(text.drop_last(), n);
    }
}

/// A field ends in the file, and not before it begins.
proof fn lemma_field_end(data: Seq<u8>, offset: int)
    requires
        0 <= offset <= data.len(),
    ensures
        offset <= field_end(data, offset) <= data.len(),
    decreases data.len() - offset,
{
    if offset < data.len() && data[offset] != 0x2a {
        lemma_field_end(data, offset + 1);
    }
}

/// The bits of the field at `offset`, and whether the field is terminated; nothing, if it has
/// more than `limit` bits.
fn read_field(data: &[u8], offset: usize, limit: usize) -> (r: Option<(Vec<u8>, bool)>)
    requires
        offset <= data@.len(),
    ensures
        match r {
            None => field_bits(data@, offset as int).len() > limit,
            Some((field, terminated)) => {
                &&& field@ == field_bits(data@, offset as int)
                &&& field@.len() <= limit
                &&& terminated == (field_end(data@, offset as int) != data@.len())
            },
        },
{
    let ghost end = field_end(data@, offset as int);
    let ghost text = data@.subrange(offset as int, end);
    proof {
        lemma_field_end(data@, offset as int);
        assert(text.take(0) =~= Seq::empty());
    }
    let mut field: Vec<u8> = Vec::new();
    let mut i = offset;
    while i < data.len() && data[i] != 0x2a
        invariant
            offset <= i <= end <= data@.len(),
            end == field_end(data@, i as int),
            end == field_end(data@, offset as int),
            text == data@.subrange(offset as int, end),
            field@ == bits(text.take(i - offset)),
            field@.len() <= limit,
        decreases data@.len() - i,
    {
        proof {
            lemma_field_end(data@, i + 1);
            assert(text.take(i + 1 - offset).drop_last() =~= text.take(i - offset));
            lemma_bits_grow(text, i + 1 - offset);
        }
        let c = data[i];
        if c == 0x30 || c == 0x31 {
            if field.len() >= limit {
                return None;
            }
            field.push(c - 0x30);
        }
        i += 1;
    }
    assert(text.take(i - offset) =~= text);
    Some((field, i < data.len()))
}

fn pack_bits_vec(b: &Vec<u8>, from: usize, to: usize) -> (r: Vec<u8>)
    requires
        from <= to <= b@.len(),
    ensures
        r@ == pack_bits(b@.subrange(from as int, to as int)),
{
    let ghost part = b@.subrange(from as int, to as int);
    let len = b.len();
    let n = (to - from) / 8;
    let mut r: Vec<u8> = Vec::new();
    let mut k: usize = 0;
    while k < n
        invariant
            from <= to <= len,
            len == b@.len(),
            n == (to - from) / 8,
            k <= n,
            part == b@.subrange(from as int, to as int),
            r@ =~= pack_bits(part).take(k as int),
        decreases n - k,
    {
        let i = from + 8 * k;
        r.push(
            b[i] | (b[i + 1] << 1) | (b[i + 2] << 2) | (b[i + 3] << 3) | (b[i + 4] << 4) | (b[i + 5]
                << 5) | (b[i + 6] << 6) | (b[i + 7] << 7),
        );
        k += 1;
    }
    assert(r@ =~= pack_bits(part));
    r
}

/// Reads a JED file.
pub fn parse_jed_file(data: &[u8]) -> (r: Result<JedFile, JedError>)
    ensures
        match r {
            Ok(file) => parse_jed(data@) == Ok::<Jed, JedError>(file@),
            Err(e) => parse_jed(data@) == Err::<Jed, JedError>(e),
        },
{
    assert(data.len() == data@.len());
    let start_text = "L000000";
    let fr_text = "NOTE FEATURE_ROW*";
    proof {
        reveal_strlit("L000000");
        reveal_strlit("NOTE FEATURE_ROW*");
        is_ascii_chars_encode_utf8(start_text@);
        is_ascii_chars_encode_utf8(fr_text@);
    }
    if !bitstream_valid(data) {
        return Err(JedError::NoSignature);
    }
    let start = match find_bytes(data, start_text.as_bytes()) {
        Some(start) => start,
        None => {
            return Err(JedError::NoConfiguration);
        },
    };
    let (config_bits, terminated) = match read_field(
        data,
        start + start_text.as_bytes().len(),
        MAX_CONFIG_SIZE * 8,
    ) {
        Some(field) => field,
        None => {
            return Err(JedError::ConfigurationTooBig);
        },
    };
    if !terminated {
        return Err(JedError::NoTerminator);
    }
    if config_bits.len() % FLASH_ROW_SIZE != 0 {
        return Err(JedError::ConfigurationSize);
    }
    let fr_start = match find_bytes(data, fr_text.as_bytes()) {
        Some(start) => start,
        None => {
            return Err(JedError::NoFeatureRow);
        },
    };
    let (row, terminated) = match read_field(
        data,
        fr_start + fr_text.as_bytes().len(),
        FEATURE_SIZE + FEABITS_SIZE,
    ) {
        Some(field) => field,
        None => {
            return Err(JedError::FeatureRowTooBig);
        },
    };
    if !terminated {
        return Err(JedError::NoTerminator);
    }
    if row.len() != FEATURE_SIZE + FEABITS_SIZE {
        return Err(JedError::FeatureRowSize);
    }
    let config = pack_bits_vec(&config_bits, 0, config_bits.len());
    let feature = pack_bits_vec(&row, 0, FEATURE_SIZE);
    let feabits = pack_bits_vec(&row, FEATURE_SIZE, FEATURE_SIZE + FEABITS_SIZE);
    assert(config_bits@.subrange(0, config_bits@.len() as int) =~= config_bits@);
    assert(row@.subrange(0, FEATURE_SIZE as int) =~= row@.take(FEATURE_SIZE as int));
    assert(row@.subrange(FEATURE_SIZE as int, row@.len() as int) =~= row@.skip(
        FEATURE_SIZE as int,
    ));
    Ok(JedFile { config, feature, feabits })
}

} // verus!
