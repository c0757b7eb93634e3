//! Which JED files are accepted, and what they say.

use vstd::prelude::*;
use vstd::utf8::*;

use crate::jed;
use crate::jed::{Jed, JedError};
use crate::laws::chip;

verus! {

/// A label is found where it first stands, and it is not found if and only if it stands nowhere.
pub proof fn law_first_occurrence(data: Seq<u8>, label: Seq<u8>, k: int)
    requires
        0 <= k,
        k + label.len() <= data.len(),
    ensures
        match jed::first_occurrence(data, label) {
            Some(i) => {
                &&& 0 <= i
                &&& i + label.len() <= data.len()
                &&& data.subrange(i, i + label.len()) == label
                &&& k < i ==> data.subrange(k, k + label.len()) != label
            },
            None => data.subrange(k, k + label.len()) != label,
        },
{
    if data.subrange(k, k + label.len()) == label {
        assert(jed::occurs_at(data, label, k));
        lemma_found(data, label, k);
    }
}

proof fn lemma_found(data: Seq<u8>, label: Seq<u8>, k: int)
    requires
        jed::occurs_at(data, label, k),
    ensures
        jed::first_occurrence(data, label) is Some,
    decreases k,
{
    if exists|i: int| i < k && jed::occurs_at(data, label, i) {
        let i = choose|i: int| i < k && jed::occurs_at(data, label, i);
        lemma_found(data, label, i);
    } else {
        assert(jed::occurs_first_at(data, label, k));
    }
}

/// A field goes up to the next `*`, or to the end of the file.
pub proof fn law_field_end(data: Seq<u8>, offset: int)
    requires
        0 <= offset <= data.len(),
    ensures
        ({
            let end = jed::field_end(data, offset);
            &&& offset <= end <= data.len()
            &&& forall|i: int| offset <= i < end ==> #[trigger] data[i] != 0x2a
            &&& end < data.len() ==> data[end] == 0x2a
        }),
    decreases data.len() - offset,
{
    if offset < data.len() && data[offset] != 0x2a {
        law_field_end(data, offset + 1);
    }
}

/// The bits of a field are those of its text, up to the next `*` or to the end of the file.
pub proof fn law_field_bits(data: Seq<u8>, offset: int, end: int)
    requires
        0 <= offset <= end <= data.len(),
        forall|i: int| offset <= i < end ==> #[trigger] data[i] != 0x2a,
        end < data.len() ==> data[end] == 0x2a,
    ensures
        jed::field_end(data, offset) == end,
        jed::field_bits(data, offset) == jed::bits(data.subrange(offset, end)),
{
    let found = jed::field_end(data, offset);
    law_field_end(data, offset);
    if found < end {
        assert(data[found] != 0x2a);
    }
    if end < found {
        assert(data[end] != 0x2a);
    }
}

/// The characters `0` and `1` stand for bits, and no other does.
pub proof fn law_bit_characters(c: u8)
    ensures
        jed::bits(seq![c]) == (if c == 0x30 {
            seq![0u8]
        } else if c == 0x31 {
            seq![1u8]
        } else {
            Seq::empty()
        }),
{
    assert(seq![c].drop_last() =~= Seq::empty());
    assert(jed::bits(Seq::empty()) =~= Seq::empty());
}

/// Byte `k` is the number that its eight bits stand for, the first one lowest.
pub proof fn law_packed_bits(b: Seq<u8>, k: int)
    requires
        forall|i: int| 0 <= i < b.len() ==> #[trigger] b[i] <= 1,
        0 <= k < b.len() as int / 8,
    ensures
        jed::pack_bits(b).len() == b.len() as int / 8,
        jed::pack_bits(b)[k] == chip::code(b.subrange(8 * k, 8 * k + 8)),
{
    let s = b.subrange(8 * k, 8 * k + 8);
    let b0 = s[0];
    let b1 = s[1];
    let b2 = s[2];
    let b3 = s[3];
    let b4 = s[4];
    let b5 = s[5];
    let b6 = s[6];
    let b7 = s[7];
    assert(b0 == b[8 * k] && b1 == b[8 * k + 1] && b2 == b[8 * k + 2] && b3 == b[8 * k + 3] && b4
        == b[8 * k + 4] && b5 == b[8 * k + 5] && b6 == b[8 * k + 6] && b7 == b[8 * k + 7]);
    assert(b0 <= 1 && b1 <= 1 && b2 <= 1 && b3 <= 1 && b4 <= 1 && b5 <= 1 && b6 <= 1 && b7 <= 1
        ==> b0 | (b1 << 1) | (b2 << 2) | (b3 << 3) | (b4 << 4) | (b5 << 5) | (b6 << 6) | (b7 << 7)
        == b0 + 2 * b1 + 4 * b2 + 8 * b3 + 16 * b4 + 32 * b5 + 64 * b6 + 128 * b7) by (bit_vector);
}

/// A file names the device in its first 1024 bytes.
pub open spec fn names(data: Seq<u8>) -> bool {
    &&& data.len() >= 1024
    &&& exists|i: int|
        0 <= i <= 1024 - 13 && #[trigger] data.subrange(i, i + 13) == encode_utf8(
            "LCMXO2-2000HC"@,
        )
}

/// A file is for the device if and only if its first 1024 bytes name it.
pub proof fn law_names_device(data: Seq<u8>)
    ensures
        jed::names_device(data) == names(data),
{
    let signature = encode_utf8("LCMXO2-2000HC"@);
    reveal_strlit("LCMXO2-2000HC");
    is_ascii_chars_encode_utf8("LCMXO2-2000HC"@);
    assert(signature.len() == 13);
    if data.len() >= 1024 {
        let head = data.take(1024);
        if jed::names_device(data) {
            let i = choose|i: int| jed::occurs_at(head, signature, i);
            assert(head.subrange(i, i + 13) =~= data.subrange(i, i + 13));
        }
        if names(data) {
            let i = choose|i: int|
                0 <= i <= 1024 - 13 && #[trigger] data.subrange(i, i + 13) == signature;
            assert(head.subrange(i, i + 13) =~= data.subrange(i, i + 13));
            assert(jed::occurs_at(head, signature, i));
        }
    }
}

/// Where the field after a label begins, if the label stands in the file.
pub open spec fn field_after(data: Seq<u8>, label: Seq<char>) -> Option<int> {
    match jed::first_occurrence(data, encode_utf8(label)) {
        Some(i) => Some(i + label.len()),
        None => None,
    }
}

/// When a JED file is accepted, and why not: the first thing that is wrong counts.
pub proof fn law_jed_accepted(data: Seq<u8>)
    ensures
        ({
            let config = field_after(data, "L000000"@);
            let feature = field_after(data, "NOTE FEATURE_ROW*"@);
            let bits = jed::field_bits(data, config->0);
            let row = jed::field_bits(data, feature->0);
            jed::parse_jed(data) == (if !names(data) {
                Err::<Jed, JedError>(JedError::NoSignature)
            } else if config is None {
                Err(JedError::NoConfiguration)
            } else if bits.len() > 4_194_304 {
                Err(JedError::ConfigurationTooBig)
            } else if jed::field_end(data, config->0) == data.len() {
                Err(JedError::NoTerminator)
            } else if bits.len() % 128 != 0 {
                Err(JedError::ConfigurationSize)
            } else if feature is None {
                Err(JedError::NoFeatureRow)
            } else if row.len() > 80 {
                Err(JedError::FeatureRowTooBig)
            } else if jed::field_end(data, feature->0) == data.len() {
                Err(JedError::NoTerminator)
            } else if row.len() < 80 {
                Err(JedError::FeatureRowSize)
            } else {
                Ok(
                    Jed {
                        config: jed::pack_bits(bits),
                        feature: jed::pack_bits(row.take(64)),
                        feabits: jed::pack_bits(row.skip(64)),
                    },
                )
            })
        }),
{
    law_names_device(data);
    reveal_strlit("L000000");
    is_ascii_chars_encode_utf8("L000000"@);
    reveal_strlit("NOTE FEATURE_ROW*");
    is_ascii_chars_encode_utf8("NOTE FEATURE_ROW*"@);
}

} // verus!
