//! The capture file, byte by byte.

use vstd::prelude::*;
use vstd::utf8::*;

use crate::endian;
use crate::pcapng;
use crate::pcapng::Record;

verus! {

/// A number in `n` bytes, the lowest one first.
pub open spec fn number(v: int, n: nat) -> Seq<u8>
    decreases n,
{
    if n == 0 {
        Seq::empty()
    } else {
        seq![(v % 256) as u8] + number(v / 256, (n - 1) as nat)
    }
}

/// Bytes, and zeros up to a multiple of four.
pub open spec fn aligned(s: Seq<u8>) -> Seq<u8> {
    s + Seq::new(((s.len() + 3) / 4 * 4 - s.len()) as nat, |i: int| 0u8)
}

/// An option: its code, the length of its value, and its value.
pub open spec fn option(code: int, value: Seq<u8>) -> Seq<u8> {
    number(code, 2) + number(value.len() as int, 2) + aligned(value)
}

/// The end of the options.
pub open spec fn end_of_options() -> Seq<u8> {
    seq![0u8, 0, 0, 0]
}

/// A block: its type, its length, what it says, and its length again.
pub open spec fn block(kind: int, body: Seq<u8>) -> Seq<u8> {
    number(kind, 4) + number(12 + body.len() as int, 4) + body + number(12 + body.len() as int, 4)
}

/// What a Section Header Block says.
pub open spec fn section() -> Seq<u8> {
    number(0x1a2b3c4d, 4) + number(1, 2) + number(0, 2) + seq![
        0xffu8,
        0xff,
        0xff,
        0xff,
        0xff,
        0xff,
        0xff,
        0xff,
    ] + option(2, encode_utf8("USB Sniffer by Alex Taradov"@)) + end_of_options()
}

/// What an Interface Description Block says.
pub open spec fn interface(link_type: int, name: Seq<u8>, description: Seq<u8>) -> Seq<u8> {
    number(link_type, 2) + number(0, 2) + number(0xffff, 4) + option(2, name) + option(
        3,
        description,
    ) + option(9, seq![9u8]) + end_of_options()
}

/// What an Enhanced Packet Block says, up to its options.
pub open spec fn packet(interface: int, ts: int, data: Seq<u8>) -> Seq<u8> {
    number(interface, 4) + number(ts / 0x1_0000_0000, 4) + number(ts, 4) + number(
        data.len() as int,
        4,
    ) + number(data.len() as int, 4) + aligned(data)
}

/// What Wireshark wants to be told of a message: that it is for its `syslog` dissector.
pub open spec fn for_syslog(text: Seq<u8>) -> Seq<u8> {
    seq![0u8, 12, 0, 6, 0x73, 0x79, 0x73, 0x6c, 0x6f, 0x67, 0, 0, 0, 0] + text
}

proof fn lemma_two(v: int)
    ensures
        number(v, 2) =~= endian::le16(v),
        number(v, 2).len() == 2,
{
    reveal(endian::le16);
    reveal_with_fuel(number, 3);
}

proof fn lemma_digits(v: int)
    ensures
        ({
            let w = v % 0x1_0000_0000;
            &&& w % 256 == v % 256
            &&& w / 256 % 256 == v / 256 % 256
            &&& w / 65536 % 256 == v / 256 / 256 % 256
            &&& w / 16777216 == v / 256 / 256 / 256 % 256
        }),
{
    let w = v % 0x1_0000_0000;
    let r0 = v % 256;
    let r1 = v / 256 % 256;
    let r2 = v / 256 / 256 % 256;
    let r3 = v / 256 / 256 / 256 % 256;
    let d = v / 256 / 256 / 256 / 256;
    assert(v == r0 + 256 * r1 + 65536 * r2 + 16777216 * r3 + 0x1_0000_0000 * d);
    assert(w == r0 + 256 * r1 + 65536 * r2 + 16777216 * r3);
    assert(w / 256 == r1 + 256 * r2 + 65536 * r3);
    assert(w / 65536 == r2 + 256 * r3);
}

proof fn lemma_four(v: int)
    ensures
        number(v, 4) =~= endian::le32(v),
        number(v, 4).len() == 4,
{
    reveal(endian::le32);
    lemma_digits(v);
    let a = v / 256;
    let b = a / 256;
    let c = b / 256;
    assert(number(c / 256, 0) =~= Seq::empty());
    assert(number(c, 1) =~= seq![(c % 256) as u8]);
    assert(number(b, 2) =~= seq![(b % 256) as u8, (c % 256) as u8]);
    assert(number(a, 3) =~= seq![(a % 256) as u8, (b % 256) as u8, (c % 256) as u8]);
    assert(number(v, 4) =~= seq![
        (v % 256) as u8,
        (a % 256) as u8,
        (b % 256) as u8,
        (c % 256) as u8,
    ]);
}

proof fn lemma_option(buf: Seq<u8>, code: int, s: Seq<char>)
    requires
        buf.len() % 4 == 0,
    ensures
        pcapng::with_option(buf, code, s) =~= buf + option(code, encode_utf8(s)),
        option(code, encode_utf8(s)).len() % 4 == 0,
{
    lemma_two(code);
    lemma_two(encode_utf8(s).len() as int);
}

proof fn lemma_end(buf: Seq<u8>)
    requires
        buf.len() % 4 == 0,
    ensures
        pcapng::with_option(buf, 0, ""@) =~= buf + end_of_options(),
{
    reveal_strlit("");
    is_ascii_chars_encode_utf8(""@);
    lemma_option(buf, 0, ""@);
    lemma_two(0);
    reveal_with_fuel(number, 3);
    assert(encode_utf8(""@).len() == 0);
    assert(option(0, encode_utf8(""@)) =~= end_of_options());
}

proof fn lemma_block(kind: int, body: Seq<u8>)
    ensures
        pcapng::finished(number(kind, 4) + number(0, 4) + body) =~= block(kind, body),
{
    lemma_four(kind);
    lemma_four(0);
    lemma_four(12 + body.len() as int);
    let whole = number(kind, 4) + number(0, 4) + body;
    assert(whole.len() == 8 + body.len());
}

proof fn lemma_section()
    ensures
        pcapng::section_body() =~= number(0x0a0d0d0a, 4) + number(0, 4) + section(),
{
    let fields = pcapng::section_fields();
    lemma_four(0x0a0d0d0a);
    lemma_four(0);
    lemma_four(0x1a2b3c4d);
    lemma_two(1);
    lemma_two(0);
    lemma_four(0xffffffff);
    reveal(endian::le32);
    assert(fields.len() == 24);
    lemma_option(fields, 2, "USB Sniffer by Alex Taradov"@);
    lemma_end(fields + option(2, encode_utf8("USB Sniffer by Alex Taradov"@)));
}

proof fn lemma_interface(link_type: int, name: Seq<char>, description: Seq<char>)
    ensures
        pcapng::interface_body(link_type, name, description) =~= number(1, 4) + number(0, 4)
            + interface(link_type, encode_utf8(name), encode_utf8(description)),
{
    let fields = pcapng::interface_fields(link_type);
    lemma_four(1);
    lemma_four(0);
    lemma_two(link_type);
    lemma_two(0);
    lemma_four(0xffff);
    assert(fields.len() == 16);
    lemma_option(fields, 2, name);
    let one = fields + option(2, encode_utf8(name));
    lemma_option(one, 3, description);
    let two = one + option(3, encode_utf8(description));
    lemma_two(9);
    lemma_two(1);
    lemma_four(9);
    let three = two + endian::le16(9) + endian::le16(1) + endian::le32(9);
    assert(endian::le32(9) =~= seq![9u8, 0, 0, 0]) by {
        reveal(endian::le32);
    }
    assert(aligned(seq![9u8]) =~= seq![9u8, 0, 0, 0]);
    assert(three =~= two + option(9, seq![9u8]));
    assert(three.len() % 4 == 0);
    lemma_end(three);
}

proof fn lemma_packet(interface: int, ts: int, data: Seq<u8>)
    ensures
        pcapng::packet_body(interface, ts, data) =~= number(6, 4) + number(0, 4) + packet(
            interface,
            ts,
            data,
        ),
        packet(interface, ts, data).len() % 4 == 0,
{
    lemma_four(6);
    lemma_four(0);
    lemma_four(interface);
    lemma_four(ts / 0x1_0000_0000);
    lemma_four(ts);
    lemma_four(data.len() as int);
}

/// The bytes of each record: a Section Header Block of version 1.0, an Interface Description Block
/// with timestamps in nanoseconds, or an Enhanced Packet Block, on interface 0 for a packet and on
/// interface 1 for a message. Nothing stands for a flush.
pub proof fn law_record_bytes(r: Record)
    ensures
        pcapng::encode(r) == (match r {
            Record::Section => block(0x0a0d0d0a, section()),
            Record::Interface { link_type, name, description } => block(
                1,
                interface(link_type, encode_utf8(name), encode_utf8(description)),
            ),
            Record::Packet { ts, data } => block(6, packet(0, ts, data) + end_of_options()),
            Record::Text { ts, text } => block(6, packet(1, ts, for_syslog(encode_utf8(text)))),
            Record::Flush => Seq::empty(),
        }),
{
    match r {
        Record::Section => {
            lemma_section();
            lemma_block(0x0a0d0d0a, section());
        },
        Record::Interface { link_type, name, description } => {
            lemma_interface(link_type, name, description);
            lemma_block(1, interface(link_type, encode_utf8(name), encode_utf8(description)));
        },
        Record::Packet { ts, data } => {
            lemma_packet(0, ts, data);
            let start = number(6, 4) + number(0, 4);
            lemma_four(6);
            lemma_four(0);
            lemma_end(start + packet(0, ts, data));
            assert(start + packet(0, ts, data) + end_of_options() =~= start + (packet(0, ts, data)
                + end_of_options()));
            lemma_block(6, packet(0, ts, data) + end_of_options());
        },
        Record::Text { ts, text } => {
            let data = for_syslog(encode_utf8(text));
            lemma_packet(1, ts, data);
            assert(pcapng::syslog_tag() + encode_utf8(text) =~= data);
            lemma_block(6, packet(1, ts, data));
        },
        Record::Flush => {},
    }
}

/// The bytes of some records are those of each of them, one after another.
pub proof fn law_records_joined(a: Seq<Record>, b: Seq<Record>)
    ensures
        pcapng::encode_all(a + b) == pcapng::encode_all(a) + pcapng::encode_all(b),
        a.len() == 1 ==> pcapng::encode_all(a) == pcapng::encode(a[0]),
        a.len() == 0 ==> pcapng::encode_all(a).len() == 0,
    decreases b.len(),
{
    if b.len() == 0 {
        assert(a + b =~= a);
        assert(pcapng::encode_all(a) + pcapng::encode_all(b) =~= pcapng::encode_all(a));
    } else {
        law_records_joined(a, b.drop_last());
        assert((a + b).drop_last() =~= a + b.drop_last());
        assert(pcapng::encode_all(a + b) =~= pcapng::encode_all(a) + pcapng::encode_all(b));
    }
    if a.len() == 1 {
        assert(a.drop_last() =~= Seq::empty());
        assert(pcapng::encode_all(a.drop_last()) =~= Seq::<u8>::empty());
        assert(pcapng::encode_all(a) =~= pcapng::encode(a[0]));
    }
}

/// What must reach the reader at once is everything before the last flush.
pub proof fn law_flush_point(log: Seq<Record>, i: int)
    requires
        0 <= i <= log.len(),
        i > 0 ==> log[i - 1] is Flush,
        forall|k: int| i <= k < log.len() ==> #[trigger] log[k] !is Flush,
    ensures
        pcapng::flush_point(log) == pcapng::encode_all(log.take(i)).len(),
    decreases log.len(),
{
    if i == log.len() {
        assert(log.take(i) =~= log);
    } else {
        assert(log[log.len() - 1] !is Flush);
        assert forall|k: int| i <= k < log.drop_last().len() implies #[trigger] log.drop_last()[k]
            !is Flush by {
            assert(log.drop_last()[k] == log[k]);
        }
        law_flush_point(log.drop_last(), i);
        assert(log.drop_last().take(i) =~= log.take(i));
    }
}

} // verus!
