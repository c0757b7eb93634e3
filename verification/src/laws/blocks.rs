//! The capture file can be read back.

use vstd::prelude::*;
use vstd::utf8::*;

use crate::endian;
use crate::pcapng;
use crate::pcapng::Record;

verus! {

/// The little-endian 32-bit value at index `i`.
pub open spec fn word_at(bytes: Seq<u8>, i: int) -> int {
    bytes[i] + 256 * bytes[i + 1] + 65536 * bytes[i + 2] + 16777216 * bytes[i + 3]
}

/// The little-endian 16-bit value at index `i`.
pub open spec fn half_at(bytes: Seq<u8>, i: int) -> int {
    bytes[i] + 256 * bytes[i + 1]
}

/// The value of the option field at index `i`.
pub open spec fn option_at(bytes: Seq<u8>, i: int) -> Seq<u8> {
    bytes.subrange(i + 4, i + 4 + half_at(bytes, i + 2))
}

/// Where the option field after the one at index `i` begins.
pub open spec fn option_after(bytes: Seq<u8>, i: int) -> int {
    i + 4 + (half_at(bytes, i + 2) + 3) / 4 * 4
}

/// The blocks of a capture file: each has its length in bytes 4 to 7. What does not make up a
/// whole block at the end is dropped.
pub open spec fn split_blocks(bytes: Seq<u8>) -> Seq<Seq<u8>>
    decreases bytes.len(),
{
    let size = word_at(bytes, 4);
    if bytes.len() < 12 || size < 12 || bytes.len() < size {
        Seq::empty()
    } else {
        seq![bytes.take(size)] + split_blocks(bytes.skip(size))
    }
}

/// What an Enhanced Packet Block says: a packet on interface 0, or a message on interface 1.
pub open spec fn read_packet_block(block: Seq<u8>) -> Record {
    let ts = word_at(block, 12) * 0x1_0000_0000 + word_at(block, 16);
    let data = block.subrange(28, 28 + word_at(block, 20));
    if word_at(block, 8) == 0 {
        Record::Packet { ts, data }
    } else {
        Record::Text { ts, text: decode_utf8(data.skip(pcapng::syslog_tag().len() as int)) }
    }
}

/// The blocks of the records, in order.
pub open spec fn record_blocks(log: Seq<Record>) -> Seq<Seq<u8>>
    decreases log.len(),
{
    if log.len() == 0 {
        Seq::empty()
    } else if log.last() is Flush {
        record_blocks(log.drop_last())
    } else {
        record_blocks(log.drop_last()).push(pcapng::encode(log.last()))
    }
}

/// A record fits in a block: its size can be stated in 32 bits.
pub open spec fn fits(r: Record) -> bool {
    pcapng::encode(r).len() < 0x1_0000_0000
}

proof fn lemma_word(bytes: Seq<u8>, i: int, v: int)
    requires
        0 <= i,
        i + 4 <= bytes.len(),
        bytes.subrange(i, i + 4) == endian::le32(v),
        0 <= v < 0x1_0000_0000,
    ensures
        word_at(bytes, i) == v,
{
    reveal(endian::le32);
    let w = bytes.subrange(i, i + 4);
    assert(w[0] == bytes[i] && w[1] == bytes[i + 1] && w[2] == bytes[i + 2] && w[3] == bytes[i
        + 3]);
}

/// Padding brings a length to a multiple of four.
proof fn lemma_padded(s: Seq<u8>)
    ensures
        pcapng::padded(s).len() % 4 == 0,
        s.len() <= pcapng::padded(s).len() < s.len() + 4,
        pcapng::padded(s).take(s.len() as int) == s,
{
    assert(pcapng::padded(s).take(s.len() as int) =~= s);
}

/// What `finished` makes of a body.
proof fn lemma_finished(body: Seq<u8>)
    requires
        body.len() >= 8,
    ensures
        ({
            let block = pcapng::finished(body);
            let size = endian::le32(body.len() as int + 4);
            &&& block.len() == body.len() + 4
            &&& block.subrange(4, 8) == size
            &&& block.subrange(block.len() - 4, block.len() as int) == size
            &&& block.subrange(8, body.len() as int) == body.subrange(8, body.len() as int)
            &&& block.take(4) == body.take(4)
        }),
{
    broadcast use endian::lemma_le32_len;

    let block = pcapng::finished(body);
    let size = endian::le32(body.len() as int + 4);
    assert(block.subrange(4, 8) =~= size);
    assert(block.subrange(block.len() - 4, block.len() as int) =~= size);
    assert(block.subrange(8, body.len() as int) =~= body.subrange(8, body.len() as int));
    assert(block.take(4) =~= body.take(4));
}

/// The body of the block of a record.
spec fn body(r: Record) -> Seq<u8> {
    match r {
        Record::Section => pcapng::section_body(),
        Record::Interface { link_type, name, description } => pcapng::interface_body(
            link_type,
            name,
            description,
        ),
        Record::Packet { ts, data } => pcapng::with_option(
            pcapng::packet_body(0, ts, data),
            0,
            ""@,
        ),
        Record::Text { ts, text } => pcapng::packet_body(
            1,
            ts,
            pcapng::syslog_tag() + encode_utf8(text),
        ),
        Record::Flush => Seq::empty(),
    }
}

proof fn lemma_body(r: Record)
    requires
        r !is Flush,
    ensures
        pcapng::encode(r) == pcapng::finished(body(r)),
        body(r).len() >= 8,
        body(r).len() % 4 == 0,
{
    broadcast use {endian::lemma_le16_len, endian::lemma_le32_len};

    match r {
        Record::Section => {
            let start = pcapng::section_fields();
            lemma_option_prefix(start, 2, "USB Sniffer by Alex Taradov"@);
            lemma_option_prefix(
                pcapng::with_option(start, 2, "USB Sniffer by Alex Taradov"@),
                0,
                ""@,
            );
        },
        Record::Interface { link_type, name, description } => {
            let one = pcapng::with_option(pcapng::interface_fields(link_type), 2, name);
            let two = pcapng::with_option(one, 3, description);
            let three = two + endian::le16(9) + endian::le16(1) + endian::le32(9);
            lemma_option_prefix(three, 0, ""@);
        },
        Record::Packet { ts, data } => {
            lemma_padded(pcapng::packet_fields(0, ts, data.len() as int) + data);
            lemma_option_prefix(pcapng::packet_body(0, ts, data), 0, ""@);
        },
        Record::Text { ts, text } => {
            let data = pcapng::syslog_tag() + encode_utf8(text);
            lemma_padded(pcapng::packet_fields(1, ts, data.len() as int) + data);
        },
        Record::Flush => {},
    }
}

/// A block is a multiple of four bytes long, and it has its length, in 32 bits, in bytes 4 to 7
/// and again at its end.
pub proof fn law_block_length(r: Record)
    requires
        r !is Flush,
    ensures
        ({
            let block = pcapng::encode(r);
            &&& block.len() >= 12
            &&& block.len() % 4 == 0
            &&& block.subrange(4, 8) == endian::le32(block.len() as int)
            &&& block.subrange(block.len() - 4, block.len() as int) == endian::le32(
                block.len() as int,
            )
        }),
{
    lemma_body(r);
    lemma_finished(body(r));
}

/// A block at the start of a file is the first that is found there.
proof fn lemma_split_first(r: Record, rest: Seq<u8>)
    requires
        r !is Flush,
        fits(r),
    ensures
        split_blocks(pcapng::encode(r) + rest) == seq![pcapng::encode(r)] + split_blocks(rest),
{
    law_block_length(r);
    let block = pcapng::encode(r);
    let bytes = block + rest;
    assert(bytes.subrange(4, 8) =~= block.subrange(4, 8));
    lemma_word(bytes, 4, block.len() as int);
    assert(bytes.take(block.len() as int) =~= block);
    assert(bytes.skip(block.len() as int) =~= rest);
}

proof fn lemma_split_prefix(log: Seq<Record>, rest: Seq<u8>)
    requires
        forall|i: int| 0 <= i < log.len() ==> fits(#[trigger] log[i]),
    ensures
        split_blocks(pcapng::encode_all(log) + rest) == record_blocks(log) + split_blocks(rest),
    decreases log.len(),
{
    if log.len() == 0 {
        assert(pcapng::encode_all(log) + rest =~= rest);
        assert(record_blocks(log) + split_blocks(rest) =~= split_blocks(rest));
    } else {
        let last = pcapng::encode(log.last());
        assert(fits(log[log.len() - 1]));
        assert(pcapng::encode_all(log) + rest =~= pcapng::encode_all(log.drop_last()) + (last
            + rest));
        lemma_split_prefix(log.drop_last(), last + rest);
        if log.last() is Flush {
            assert(last + rest =~= rest);
        } else {
            lemma_split_first(log.last(), rest);
            assert(record_blocks(log.drop_last()) + (seq![last] + split_blocks(rest))
                =~= record_blocks(log) + split_blocks(rest));
        }
    }
}

/// A reader that goes from block to block by their lengths finds the blocks of the records, all
/// of them and in order, and nothing else.
pub proof fn law_blocks_found(log: Seq<Record>)
    requires
        forall|i: int| 0 <= i < log.len() ==> fits(#[trigger] log[i]),
    ensures
        split_blocks(pcapng::encode_all(log)) == record_blocks(log),
{
    lemma_split_prefix(log, Seq::empty());
    assert(pcapng::encode_all(log) + Seq::<u8>::empty() =~= pcapng::encode_all(log));
    assert(split_blocks(Seq::empty()) =~= Seq::<Seq<u8>>::empty());
    assert(record_blocks(log) + Seq::<Seq<u8>>::empty() =~= record_blocks(log));
}

/// The fields of a packet block.
proof fn lemma_packet_fields(interface: int, ts: int, data: Seq<u8>, body: Seq<u8>)
    requires
        0 <= interface <= 1,
        0 <= ts < 0x1_0000_0000_0000_0000,
        data.len() < 0x1_0000_0000,
        body.len() >= 28int + data.len(),
        body.take(28int + data.len()) == pcapng::packet_body(interface, ts, data).take(
            28int + data.len(),
        ),
    ensures
        ({
            let block = pcapng::finished(body);
            &&& word_at(block, 0) == 6
            &&& word_at(block, 8) == interface
            &&& word_at(block, 12) * 0x1_0000_0000 + word_at(block, 16) == ts
            &&& word_at(block, 20) == data.len()
            &&& word_at(block, 24) == data.len()
            &&& block.subrange(28, 28int + data.len()) == data
        }),
{
    broadcast use endian::lemma_le32_len;

    let block = pcapng::finished(body);
    let n = 28int + data.len();
    let start = pcapng::packet_fields(interface, ts, data.len() as int) + data;
    lemma_finished(body);
    lemma_padded(start);
    assert(start.len() == n);
    assert(body.take(n) == start);
    assert(block.subrange(8, n) =~= block.subrange(8, body.len() as int).take(n - 8));
    assert(body.subrange(8, n) =~= body.subrange(8, body.len() as int).take(n - 8));
    assert(block.subrange(8, n) =~= start.subrange(8, n)) by {
        assert(start.subrange(8, n) =~= body.take(n).subrange(8, n));
        assert(body.take(n).subrange(8, n) =~= body.subrange(8, n));
    }
    assert(block.take(4) =~= start.take(4)) by {
        assert(body.take(4) =~= body.take(n).take(4));
    }
    assert(block.subrange(0, 4) =~= endian::le32(6)) by {
        assert(block.subrange(0, 4) =~= block.take(4));
        assert(start.take(4) =~= endian::le32(6));
    }
    lemma_word(block, 0, 6);
    lemma_field(block, start, n, 8, endian::le32(interface));
    lemma_word(block, 8, interface);
    lemma_field(block, start, n, 12, endian::le32(ts / 0x1_0000_0000));
    lemma_word(block, 12, ts / 0x1_0000_0000);
    lemma_field(block, start, n, 16, endian::le32(ts));
    endian::lemma_le32_wraps(ts, ts % 0x1_0000_0000);
    lemma_word(block, 16, ts % 0x1_0000_0000);
    lemma_field(block, start, n, 20, endian::le32(data.len() as int));
    lemma_word(block, 20, data.len() as int);
    lemma_field(block, start, n, 24, endian::le32(data.len() as int));
    lemma_word(block, 24, data.len() as int);
    assert(block.subrange(28, n) =~= data) by {
        assert(block.subrange(28, n) =~= block.subrange(8, n).skip(20));
        assert(start.subrange(8, n).skip(20) =~= data);
    }
}

/// A field that stands in `start` stands in `block` too.
proof fn lemma_field(block: Seq<u8>, start: Seq<u8>, n: int, at: int, field: Seq<u8>)
    requires
        8 <= at,
        at + 4 <= n,
        n <= block.len(),
        n == start.len(),
        block.subrange(8, n) == start.subrange(8, n),
        start.subrange(at, at + 4) =~= field,
    ensures
        block.subrange(at, at + 4) == field,
{
    assert(block.subrange(at, at + 4) =~= block.subrange(8, n).subrange(at - 8, at - 4));
    assert(start.subrange(at, at + 4) =~= start.subrange(8, n).subrange(at - 8, at - 4));
}

/// A packet can be read back from its block.
pub proof fn law_packet_read_back(ts: int, data: Seq<u8>)
    requires
        0 <= ts < 0x1_0000_0000_0000_0000,
        fits(Record::Packet { ts, data }),
    ensures
        read_packet_block(pcapng::encode(Record::Packet { ts, data })) == (Record::Packet {
            ts,
            data,
        }),
        word_at(pcapng::encode(Record::Packet { ts, data }), 0) == 6,
{
    broadcast use {endian::lemma_le16_len, endian::lemma_le32_len};

    let r = Record::Packet { ts, data };
    let inner = pcapng::packet_body(0, ts, data);
    let n = 28int + data.len();
    lemma_body(r);
    assert(inner.len() >= n);
    assert(body(r).take(n) =~= inner.take(n));
    lemma_finished(body(r));
    lemma_packet_fields(0, ts, data, body(r));
}

/// A message can be read back from its block.
pub proof fn law_text_read_back(ts: int, text: Seq<char>)
    requires
        0 <= ts < 0x1_0000_0000_0000_0000,
        fits(Record::Text { ts, text }),
    ensures
        read_packet_block(pcapng::encode(Record::Text { ts, text })) == (Record::Text { ts, text }),
        word_at(pcapng::encode(Record::Text { ts, text }), 0) == 6,
{
    broadcast use {endian::lemma_le16_len, endian::lemma_le32_len};

    let r = Record::Text { ts, text };
    let data = pcapng::syslog_tag() + encode_utf8(text);
    let n = 28int + data.len();
    lemma_body(r);
    lemma_finished(body(r));
    assert(body(r).len() >= n);
    lemma_packet_fields(1, ts, data, body(r));
    assert(data.skip(pcapng::syslog_tag().len() as int) =~= encode_utf8(text));
    encode_utf8_decode_utf8(text);
}

/// An option field can be read from any bytes that begin with it.
proof fn lemma_option(buf: Seq<u8>, index: int, s: Seq<char>, bytes: Seq<u8>)
    requires
        buf.len() % 4 == 0,
        0 <= index < 0x1_0000,
        encode_utf8(s).len() < 0x1_0000,
        pcapng::with_option(buf, index, s).len() <= bytes.len(),
        forall|k: int|
            buf.len() <= k < pcapng::with_option(buf, index, s).len() ==> bytes[k]
                == pcapng::with_option(buf, index, s)[k],
    ensures
        half_at(bytes, buf.len() as int) == index,
        option_at(bytes, buf.len() as int) == encode_utf8(s),
        option_after(bytes, buf.len() as int) == pcapng::with_option(buf, index, s).len(),
        pcapng::with_option(buf, index, s).len() % 4 == 0,
        forall|k: int| 0 <= k < buf.len() ==> pcapng::with_option(buf, index, s)[k] == buf[k],
{
    broadcast use endian::lemma_le16_len;

    let n = buf.len() as int;
    let field = pcapng::with_option(buf, index, s);
    let text = encode_utf8(s);
    reveal(endian::le16);
    assert(field[n] == endian::le16(index)[0]);
    assert(field[n + 1] == endian::le16(index)[1]);
    assert(field[n + 2] == endian::le16(text.len() as int)[0]);
    assert(field[n + 3] == endian::le16(text.len() as int)[1]);
    assert(half_at(bytes, n + 2) == text.len());
    assert forall|k: int| 0 <= k < text.len() implies bytes[n + 4 + k] == text[k] by {
        assert(field[n + 4 + k] == text[k]);
    }
    assert(option_at(bytes, n) =~= text);
}

/// The description of an interface can be read back from its block: the link type, the name and
/// the description, and the resolution of the timestamps, which is nanoseconds.
pub proof fn law_interface_read_back(link_type: int, name: Seq<char>, description: Seq<char>)
    requires
        0 <= link_type < 0x1_0000,
        encode_utf8(name).len() < 0x1_0000,
        encode_utf8(description).len() < 0x1_0000,
    ensures
        ({
            let block = pcapng::encode(Record::Interface { link_type, name, description });
            let second = option_after(block, 16);
            let third = option_after(block, second);
            &&& word_at(block, 0) == 1
            &&& half_at(block, 8) == link_type
            &&& half_at(block, 16) == 2
            &&& option_at(block, 16) == encode_utf8(name)
            &&& half_at(block, second) == 3
            &&& option_at(block, second) == encode_utf8(description)
            &&& half_at(block, third) == 9
            &&& option_at(block, third) == seq![9u8]
        }),
{
    broadcast use {endian::lemma_le16_len, endian::lemma_le32_len};

    let r = Record::Interface { link_type, name, description };
    let block = pcapng::encode(r);
    let start = pcapng::interface_fields(link_type);
    let one = pcapng::with_option(start, 2, name);
    let two = pcapng::with_option(one, 3, description);
    let three = two + endian::le16(9) + endian::le16(1) + endian::le32(9);
    lemma_block_bytes(r);
    lemma_option_prefix(start, 2, name);
    lemma_option_prefix(one, 3, description);
    lemma_option_prefix(three, 0, ""@);
    lemma_option(start, 2, name, block);
    lemma_option(one, 3, description, block);
    lemma_start(block, link_type);
    lemma_resolution(two, block);
}

/// Outside of its length, a block is its body.
proof fn lemma_block_bytes(r: Record)
    requires
        r !is Flush,
    ensures
        pcapng::encode(r).len() == body(r).len() + 4,
        forall|k: int|
            0 <= k < 4 || 8 <= k < body(r).len() ==> #[trigger] pcapng::encode(r)[k] == body(r)[k],
{
    let block = pcapng::encode(r);
    let n = body(r).len() as int;
    lemma_body(r);
    lemma_finished(body(r));
    assert forall|k: int| 0 <= k < 4 || 8 <= k < n implies #[trigger] block[k] == body(r)[k] by {
        if k < 4 {
            assert(block.take(4)[k] == body(r).take(4)[k]);
        } else {
            assert(block.subrange(8, n)[k - 8] == body(r).subrange(8, n)[k - 8]);
        }
    }
}

/// An option field comes after what was there before.
proof fn lemma_option_prefix(buf: Seq<u8>, index: int, s: Seq<char>)
    ensures
        pcapng::with_option(buf, index, s).len() >= buf.len() + 4,
        pcapng::with_option(buf, index, s).len() % 4 == 0,
        forall|k: int|
            0 <= k < buf.len() ==> #[trigger] pcapng::with_option(buf, index, s)[k] == buf[k],
{
    broadcast use endian::lemma_le16_len;

}

/// The type of the block and the link type.
proof fn lemma_start(block: Seq<u8>, link_type: int)
    requires
        0 <= link_type < 0x1_0000,
        block.len() >= 16,
        forall|k: int|
            0 <= k < 4 || 8 <= k < 16 ==> #[trigger] block[k] == pcapng::interface_fields(
                link_type,
            )[k],
    ensures
        word_at(block, 0) == 1,
        half_at(block, 8) == link_type,
{
    broadcast use {endian::lemma_le16_len, endian::lemma_le32_len};

    assert(block.subrange(0, 4) =~= endian::le32(1));
    lemma_word(block, 0, 1);
    assert(block[8] == endian::le16(link_type)[0]);
    assert(block[9] == endian::le16(link_type)[1]);
    reveal(endian::le16);
}

/// The resolution of the timestamps.
proof fn lemma_resolution(before: Seq<u8>, block: Seq<u8>)
    requires
        before.len() + 8 <= block.len(),
        forall|k: int|
            before.len() <= k < before.len() + 8 ==> #[trigger] block[k] == (before + endian::le16(
                9,
            ) + endian::le16(1) + endian::le32(9))[k],
    ensures
        half_at(block, before.len() as int) == 9,
        option_at(block, before.len() as int) == seq![9u8],
{
    broadcast use {endian::lemma_le16_len, endian::lemma_le32_len};

    let n = before.len() as int;
    assert(block[n] == endian::le16(9)[0]);
    assert(block[n + 1] == endian::le16(9)[1]);
    assert(block[n + 2] == endian::le16(1)[0]);
    assert(block[n + 3] == endian::le16(1)[1]);
    assert(block[n + 4] == endian::le32(9)[0]);
    reveal(endian::le16);
    reveal(endian::le32);
    assert(option_at(block, n) =~= seq![9u8]);
}

} // verus!
