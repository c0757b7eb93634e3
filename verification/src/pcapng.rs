//! The pcapng file format, as far as a capture uses it.
//!
//! A capture file is a sequence of blocks. `Record` is what one block says, `encode` is how the
//! block looks, and `Output` is the stream of blocks on its way to the capture file.

use vstd::prelude::*;
use vstd::string::*;
use vstd::utf8::*;

use crate::endian;

verus! {

broadcast use {endian::lemma_le16_len, endian::lemma_le32_len};

/// `s` followed by as many zeros as bring its length to a multiple of four.
pub open spec fn padded(s: Seq<u8>) -> Seq<u8> {
    s + Seq::new(((4 - s.len() % 4) % 4) as nat, |i: int| 0u8)
}

/// `buf` followed by an option field (type, length, value), padded.
pub open spec fn with_option(buf: Seq<u8>, index: int, s: Seq<char>) -> Seq<u8> {
    padded(buf + endian::le16(index) + endian::le16(encode_utf8(s).len() as int) + encode_utf8(s))
}

/// The block made of `body`: its length is appended, and also written over bytes 4 to 7.
pub open spec fn finished(body: Seq<u8>) -> Seq<u8> {
    let total = endian::le32(body.len() as int + 4);
    let all = body + total;
    all.subrange(0, 4) + total + all.subrange(8, all.len() as int)
}

/// Builder of one pcapng block.
pub struct PcapngBuf {
    buf: Vec<u8>,
}

impl View for PcapngBuf {
    type V = Seq<u8>;

    closed spec fn view(&self) -> Seq<u8> {
        self.buf@
    }
}

impl PcapngBuf {
    /// An empty buffer.
    pub fn new() -> (r: Self)
        ensures
            r@ == Seq::<u8>::empty(),
    {
        PcapngBuf { buf: Vec::with_capacity(4096) }
    }

    /// Appends a 16-bit value, little-endian.
    pub fn put_half(&mut self, v: u16)
        ensures
            final(self)@ == old(self)@ + endian::le16(v as int),
    {
        self.buf.push((v % 256) as u8);
        self.buf.push((v / 256) as u8);
        reveal(endian::le16);
        assert(self.buf@ =~= old(self).buf@ + endian::le16(v as int));
    }

    /// Appends a 32-bit value, little-endian.
    pub fn put_word(&mut self, v: u32)
        ensures
            final(self)@ == old(self)@ + endian::le32(v as int),
    {
        self.buf.push((v % 256) as u8);
        self.buf.push((v / 256 % 256) as u8);
        self.buf.push((v / 65536 % 256) as u8);
        self.buf.push((v / 16777216) as u8);
        reveal(endian::le32);
        assert(self.buf@ =~= old(self).buf@ + endian::le32(v as int));
    }

    /// Appends bytes as they are.
    pub fn put_data(&mut self, data: &[u8])
        ensures
            final(self)@ == old(self)@ + data@,
    {
        self.buf.extend_from_slice(data);
        assert(self.buf@ =~= old(self).buf@ + data@);
    }

    /// Appends zeros up to a multiple of four bytes.
    pub fn put_pad(&mut self)
        ensures
            final(self)@ == padded(old(self)@),
    {
        let ghost start = self.buf@;
        let ghost missing = (4 - start.len() % 4) % 4;
        while self.buf.len() % 4 != 0
            invariant
                missing == (4 - start.len() % 4) % 4,
                start.len() <= self.buf@.len() <= start.len() + missing,
                self.buf@ =~= start + Seq::new(
                    (self.buf@.len() - start.len()) as nat,
                    |i: int| 0u8,
                ),
            decreases start.len() + missing - self.buf@.len(),
        {
            self.buf.push(0);
        }
        assert(self.buf@ =~= padded(start));
    }

    /// Appends an option field.
    pub fn put_option(&mut self, index: u16, s: &str)
        ensures
            final(self)@ == with_option(old(self)@, index as int, s@),
    {
        let data = s.as_bytes();
        self.put_half(index);
        self.put_half(low_half(data.len()));
        self.put_data(data);
        self.put_pad();
    }
}

/// The low 16 bits of a length.
fn low_half(n: usize) -> (r: u16)
    ensures
        endian::le16(r as int) == endian::le16(n as int),
{
    reveal(endian::le16);
    (n % 0x1_0000) as u16
}

/// The low 32 bits of a length that `extra` more bytes follow.
fn low_word(n: usize, extra: u64) -> (r: u32)
    requires
        extra <= 0xffff,
    ensures
        endian::le32(r as int) == endian::le32(n + extra),
{
    let r = ((n as u64 % 0x1_0000_0000 + extra) % 0x1_0000_0000) as u32;
    proof {
        endian::lemma_le32_wraps(r as int, n + extra);
    }
    r
}

/// What precedes the text of a message: the Upper PDU tag that names the syslog dissector, and
/// the end-of-tags mark.
pub open spec fn syslog_tag() -> Seq<u8> {
    seq![0, 12, 0, 6, 0x73, 0x79, 0x73, 0x6c, 0x6f, 0x67, 0, 0, 0, 0]
}

/// One entry of the capture file, or a request to hand all entries so far to the reader.
pub enum Record {
    /// Section Header Block.
    Section,
    /// Interface Description Block.
    Interface { link_type: int, name: Seq<char>, description: Seq<char> },
    /// A USB packet: Enhanced Packet Block on interface 0.
    Packet { ts: int, data: Seq<u8> },
    /// A message: Enhanced Packet Block on interface 1.
    Text { ts: int, text: Seq<char> },
    /// Everything before this point is flushed.
    Flush,
}

/// The fixed fields of a Section Header Block: type, length, byte order, version, and a section
/// length that is not known.
pub open spec fn section_fields() -> Seq<u8> {
    endian::le32(0x0a0d0d0a) + endian::le32(0) + endian::le32(0x1a2b3c4d) + endian::le16(1)
        + endian::le16(0) + endian::le32(0xffffffff) + endian::le32(0xffffffff)
}

/// A Section Header Block, up to its second length.
pub open spec fn section_body() -> Seq<u8> {
    with_option(with_option(section_fields(), 2, "USB Sniffer by Alex Taradov"@), 0, ""@)
}

/// The fixed fields of an Interface Description Block: type, length, link type, and the most
/// bytes of a packet.
pub open spec fn interface_fields(link_type: int) -> Seq<u8> {
    endian::le32(1) + endian::le32(0) + endian::le16(link_type) + endian::le16(0) + endian::le32(
        0xffff,
    )
}

/// An Interface Description Block, up to its second length. The timestamps are in nanoseconds.
pub open spec fn interface_body(
    link_type: int,
    name: Seq<char>,
    description: Seq<char>,
) -> Seq<u8> {
    let named = with_option(with_option(interface_fields(link_type), 2, name), 3, description);
    with_option(named + endian::le16(9) + endian::le16(1) + endian::le32(9), 0, ""@)
}

/// The fixed fields of an Enhanced Packet Block: type, length, interface, time, and the bytes
/// captured and sent.
pub open spec fn packet_fields(interface: int, ts: int, len: int) -> Seq<u8> {
    endian::le32(6) + endian::le32(0) + endian::le32(interface) + endian::le32(
        ts / 0x1_0000_0000,
    ) + endian::le32(ts) + endian::le32(len) + endian::le32(len)
}

/// An Enhanced Packet Block, up to its second length.
pub open spec fn packet_body(interface: int, ts: int, data: Seq<u8>) -> Seq<u8> {
    padded(packet_fields(interface, ts, data.len() as int) + data)
}

/// The bytes of a record in the capture file.
pub open spec fn encode(r: Record) -> Seq<u8> {
    match r {
        Record::Section => finished(section_body()),
        Record::Interface { link_type, name, description } => finished(
            interface_body(link_type, name, description),
        ),
        Record::Packet { ts, data } => finished(with_option(packet_body(0, ts, data), 0, ""@)),
        Record::Text { ts, text } => finished(
            packet_body(1, ts, syslog_tag() + encode_utf8(text)),
        ),
        Record::Flush => Seq::empty(),
    }
}

/// The bytes of a sequence of records.
pub open spec fn encode_all(log: Seq<Record>) -> Seq<u8>
    decreases log.len(),
{
    if log.len() == 0 {
        Seq::empty()
    } else {
        encode_all(log.drop_last()) + encode(log.last())
    }
}

/// How many of the bytes of `log` precede its last flush.
pub open spec fn flush_point(log: Seq<Record>) -> nat
    decreases log.len(),
{
    if log.len() == 0 {
        0
    } else if log.last() is Flush {
        encode_all(log).len()
    } else {
        flush_point(log.drop_last())
    }
}

/// The bytes that are still to be written to the capture file.
pub struct Output {
    bytes: Vec<u8>,
    flushed: usize,
    log: Ghost<Seq<Record>>,
}

impl Output {
    /// The bytes to be written, in order.
    pub closed spec fn bytes(&self) -> Seq<u8> {
        self.bytes@
    }

    /// How many of the bytes a flush follows.
    pub closed spec fn flushed(&self) -> nat {
        self.flushed as nat
    }

    /// The records that the bytes stand for.
    pub closed spec fn log(&self) -> Seq<Record> {
        self.log@
    }

    /// The bytes are those of the records, and the last flush is where the records have it.
    pub open spec fn wf(&self) -> bool {
        &&& self.bytes() == encode_all(self.log())
        &&& self.flushed() == flush_point(self.log())
    }

    /// Nothing to be written.
    pub fn new() -> (r: Self)
        ensures
            r.wf(),
            r.log() == Seq::<Record>::empty(),
    {
        Output { bytes: Vec::new(), flushed: 0, log: Ghost(Seq::empty()) }
    }

    /// The bytes to be written.
    pub fn as_bytes(&self) -> (r: &[u8])
        ensures
            r@ == self.bytes(),
    {
        self.bytes.as_slice()
    }

    /// How many of the bytes must reach the reader at once.
    pub fn flushed_len(&self) -> (r: usize)
        ensures
            r == self.flushed(),
    {
        self.flushed
    }

    /// Forgets the bytes, once they are written.
    pub fn clear(&mut self)
        ensures
            final(self).wf(),
            final(self).log() == Seq::<Record>::empty(),
    {
        self.bytes.clear();
        self.flushed = 0;
        self.log = Ghost(Seq::empty());
    }

    /// Appends bytes.
    fn write_all(&mut self, data: &[u8])
        ensures
            final(self).bytes() == old(self).bytes() + data@,
            final(self).flushed() == old(self).flushed(),
            final(self).log() == old(self).log(),
    {
        self.bytes.extend_from_slice(data);
        assert(self.bytes@ =~= old(self).bytes@ + data@);
    }

    /// Takes note of the record that the last bytes stand for.
    fn note(&mut self, Ghost(r): Ghost<Record>)
        ensures
            final(self).bytes() == old(self).bytes(),
            final(self).flushed() == old(self).flushed(),
            final(self).log() == old(self).log().push(r),
    {
        self.log = Ghost(self.log@.push(r));
    }

    /// Asks for a flush of everything so far.
    pub fn flush(&mut self)
        requires
            old(self).wf(),
        ensures
            final(self).wf(),
            final(self).log() == old(self).log().push(Record::Flush),
    {
        self.flushed = self.bytes.len();
        self.log = Ghost(self.log@.push(Record::Flush));
        assert(self.log@.drop_last() =~= old(self).log@);
        assert(self.bytes@ + encode(Record::Flush) =~= self.bytes@);
    }
}

/// Overwrites bytes 4 to 7 with a 32-bit value, little-endian.
fn set_block_length(buf: &mut Vec<u8>, v: u32)
    requires
        8 <= old(buf)@.len(),
    ensures
        final(buf)@ == old(buf)@.subrange(0, 4) + endian::le32(v as int) + old(buf)@.subrange(
            8,
            old(buf)@.len() as int,
        ),
{
    buf.set(4, (v % 256) as u8);
    buf.set(5, (v / 256 % 256) as u8);
    buf.set(6, (v / 65536 % 256) as u8);
    buf.set(7, (v / 16777216) as u8);
    reveal(endian::le32);
    assert(buf@ =~= old(buf)@.subrange(0, 4) + endian::le32(v as int) + old(buf)@.subrange(
        8,
        old(buf)@.len() as int,
    ));
}

impl PcapngBuf {
    /// Completes the block with its length, hands it to `writer` and empties the buffer. Which
    /// record the block stands for is for the caller to note.
    pub(crate) fn send_buffer(&mut self, writer: &mut Output)
        requires
            old(self)@.len() >= 4,
        ensures
            final(self)@ == Seq::<u8>::empty(),
            final(writer).bytes() == old(writer).bytes() + finished(old(self)@),
            final(writer).flushed() == old(writer).flushed(),
            final(writer).log() == old(writer).log(),
    {
        let total = low_word(self.buf.len(), 4);
        self.put_word(total);
        set_block_length(&mut self.buf, total);
        assert(self.buf@ =~= finished(old(self)@));
        writer.write_all(self.buf.as_slice());
        self.buf.clear();
    }

    /// Sends the block of a record.
    fn send_record(&mut self, writer: &mut Output, Ghost(r): Ghost<Record>)
        requires
            old(writer).wf(),
            old(self)@.len() >= 4,
            finished(old(self)@) == encode(r),
            r !is Flush,
        ensures
            final(self)@ == Seq::<u8>::empty(),
            final(writer).wf(),
            final(writer).log() == old(writer).log().push(r),
    {
        self.send_buffer(writer);
        writer.note(Ghost(r));
        assert(writer.log().drop_last() =~= old(writer).log());
    }

    /// Writes the Section Header Block.
    pub(crate) fn write_section(&mut self, writer: &mut Output)
        requires
            old(writer).wf(),
            old(self)@.len() == 0,
        ensures
            final(self)@.len() == 0,
            final(writer).wf(),
            final(writer).log() == old(writer).log().push(Record::Section),
    {
        self.put_word(0x0a0d0d0a);  // block type
        self.put_word(0);  // block length, filled in later
        self.put_word(0x1a2b3c4d);  // byte order magic
        self.put_half(1);  // major version
        self.put_half(0);  // minor version
        self.put_word(0xffffffff);  // section length unknown
        self.put_word(0xffffffff);
        assert(self@ =~= section_fields());
        self.put_option(2, "USB Sniffer by Alex Taradov");  // shb_hardware
        self.put_option(0, "");
        self.send_record(writer, Ghost(Record::Section));
    }

    /// Writes an Interface Description Block with a timestamp resolution of nanoseconds.
    pub(crate) fn write_interface(
        &mut self,
        writer: &mut Output,
        link_type: u16,
        name: &str,
        description: &str,
    )
        requires
            old(writer).wf(),
            old(self)@.len() == 0,
        ensures
            final(self)@.len() == 0,
            final(writer).wf(),
            final(writer).log() == old(writer).log().push(
                (Record::Interface {
                    link_type: link_type as int,
                    name: name@,
                    description: description@,
                }),
            ),
    {
        self.put_word(1);  // block type
        self.put_word(0);
        self.put_half(link_type);
        self.put_half(0);
        self.put_word(0xffff);  // snapshot length
        assert(self@ =~= interface_fields(link_type as int));
        self.put_option(2, name);
        self.put_option(3, description);
        self.put_half(9);  // if_tsresol
        self.put_half(1);
        self.put_word(9);  // nanoseconds
        self.put_option(0, "");
        self.send_record(
            writer,
            Ghost(
                Record::Interface {
                    link_type: link_type as int,
                    name: name@,
                    description: description@,
                },
            ),
        );
    }

    /// Writes a USB packet.
    pub(crate) fn write_packet(&mut self, writer: &mut Output, ts: u64, data: &[u8])
        requires
            old(writer).wf(),
            old(self)@.len() == 0,
        ensures
            final(self)@.len() == 0,
            final(writer).wf(),
            final(writer).log() == old(writer).log().push(
                (Record::Packet { ts: ts as int, data: data@ }),
            ),
    {
        self.put_packet_header(0, ts, low_word(data.len(), 0));
        self.put_data(data);
        self.put_pad();
        assert(self@ == packet_body(0, ts as int, data@));
        self.put_option(0, "");
        self.send_record(writer, Ghost(Record::Packet { ts: ts as int, data: data@ }));
    }

    /// Writes a message.
    pub(crate) fn write_str(&mut self, writer: &mut Output, ts: u64, s: &str)
        requires
            old(writer).wf(),
            old(self)@.len() == 0,
        ensures
            final(self)@.len() == 0,
            final(writer).wf(),
            final(writer).log() == old(writer).log().push(
                (Record::Text { ts: ts as int, text: s@ }),
            ),
    {
        let tag: [u8; 14] = [0, 12, 0, 6, 0x73, 0x79, 0x73, 0x6c, 0x6f, 0x67, 0, 0, 0, 0];
        let data = s.as_bytes();
        let ghost payload = syslog_tag() + data@;
        self.put_packet_header(1, ts, low_word(data.len(), 14));
        let ghost start = self@;
        self.put_data(&tag);
        self.put_data(data);
        assert(tag@ =~= syslog_tag());
        assert(self@ =~= start + payload);
        self.put_pad();
        assert(self@ == packet_body(1, ts as int, payload));
        self.send_record(writer, Ghost(Record::Text { ts: ts as int, text: s@ }));
    }

    /// Appends the fixed part of an Enhanced Packet Block.
    fn put_packet_header(&mut self, interface: u32, ts: u64, len: u32)
        requires
            old(self)@.len() == 0,
        ensures
            final(self)@ == packet_fields(interface as int, ts as int, len as int),
    {
        self.put_word(6);  // block type
        self.put_word(0);
        self.put_word(interface);
        self.put_word((ts / 0x1_0000_0000) as u32);
        let low = (ts % 0x1_0000_0000) as u32;
        proof {
            endian::lemma_le32_wraps(low as int, ts as int);
        }
        self.put_word(low);
        self.put_word(len);
        self.put_word(len);
        assert(self@ =~= packet_fields(interface as int, ts as int, len as int));
    }
}

} // verus!
