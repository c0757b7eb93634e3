//! Firmware uploads from the side of the microcontroller and of the EEPROM.

use vstd::prelude::*;

use crate::fx2lp;
use crate::fx2lp::{Eeprom, Fx2lpError, Sram, UploadStage};
use crate::laws::uploads;
use crate::usb;
use crate::usb::{Act, SessionStep};

verus! {

/// A microcontroller.
pub struct Micro {
    /// It is held in reset.
    pub held: bool,
    pub memory: Map<int, u8>,
    /// Its memory was written only while it was held, and in parts that fit in a packet.
    pub clean: bool,
}

/// Bytes at consecutive addresses.
pub open spec fn at(addr: int, data: Seq<u8>) -> Map<int, u8> {
    Map::new(|k: int| addr <= k < addr + data.len(), |k: int| data[k - addr])
}

/// What a request does to a microcontroller.
pub open spec fn obeys(c: Micro, act: Act) -> Micro {
    match act {
        Act::ControlOut { request, value, index, data } => if request != 0xa0 || index != 0 {
            c
        } else if value == 0xe600 {
            Micro { held: data == seq![1u8], clean: c.clean && data.len() == 1, ..c }
        } else {
            Micro {
                memory: c.memory.union_prefer_right(at(value as int, data)),
                clean: c.clean && c.held && 0 < data.len() <= 64,
                ..c
            }
        },
        _ => c,
    }
}

/// A microcontroller after some requests.
pub open spec fn micro(c: Micro, bus: Seq<Act>) -> Micro
    decreases bus.len(),
{
    if bus.len() == 0 {
        c
    } else {
        obeys(micro(c, bus.drop_last()), bus.last())
    }
}

/// A memory holds bytes from address zero on.
pub open spec fn holds(memory: Map<int, u8>, data: Seq<u8>) -> bool {
    forall|k: int| 0 <= k < data.len() ==> #[trigger] memory.contains_key(k) && memory[k] == data[k]
}

/// What is written at once: up to 64 bytes.
pub open spec fn part(data: Seq<u8>, addr: int) -> Seq<u8> {
    data.subrange(
        addr,
        if addr + 64 < data.len() {
            addr + 64
        } else {
            data.len() as int
        },
    )
}

/// A reply brings these bytes; what it lacks counts as zero.
pub open spec fn brings(reply: Seq<u8>, bytes: Seq<u8>) -> bool {
    forall|k: int|
        0 <= k < bytes.len() ==> #[trigger] bytes[k] == (if k < reply.len() {
            reply[k]
        } else {
            0u8
        })
}

proof fn lemma_brings(reply: Seq<u8>, bytes: Seq<u8>)
    ensures
        brings(reply, bytes) == (usb::received(reply, bytes.len() as int) == bytes),
{
    let read = usb::received(reply, bytes.len() as int);
    if brings(reply, bytes) {
        assert(read =~= bytes);
    }
    if read == bytes {
        assert forall|k: int| 0 <= k < bytes.len() implies #[trigger] bytes[k] == (if k
            < reply.len() {
            reply[k]
        } else {
            0u8
        }) by {
            assert(read[k] == bytes[k]);
        }
    }
}

broadcast proof fn lemma_micro(c: Micro, bus: Seq<Act>, act: Act)
    ensures
        #[trigger] micro(c, bus.push(act)) == obeys(micro(c, bus), act),
{
    assert(bus.push(act).drop_last() =~= bus);
}

/// An upload waits for the bytes that it has just written: it asks for as many from the same
/// address.
pub open spec fn reads_back(m: Sram) -> bool {
    let p = part(m.data, m.addr);
    let n = m.bus.len();
    &&& n >= 2
    &&& m.bus[n - 1] matches Act::ControlIn { request, value, index, length } && request == 0xa0
        && value == m.addr && index == 0 && length == p.len()
    &&& m.bus[n - 2] matches Act::ControlOut { request, value, index, data } && request == 0xa0
        && value == m.addr && index == 0 && data == p
}

/// How far an upload to the memory is.
spec fn sram_so_far(m: Sram, c: Micro, data: Seq<u8>) -> bool {
    let n = micro(c, m.bus);
    &&& m.data == data
    &&& n.clean
    &&& match m.stage {
        UploadStage::Verify => n.held && 0 <= m.addr < data.len() && reads_back(m) && holds(
            n.memory,
            data.take(m.addr + part(data, m.addr).len()),
        ),
        UploadStage::Finished => !n.held && holds(n.memory, data),
        UploadStage::Failed => n.held,
    }
}

proof fn lemma_sram_next(m: Sram, c: Micro, data: Seq<u8>)
    requires
        m.data == data,
        data.len() <= 16384,
        0 <= m.addr <= data.len(),
        micro(c, m.bus).held,
        micro(c, m.bus).clean,
        holds(micro(c, m.bus).memory, data.take(m.addr)),
    ensures
        sram_so_far(m.next(), c, data),
        m.next().addr == m.addr,
        m.next().stage == (if m.addr < data.len() {
            UploadStage::Verify
        } else {
            UploadStage::Finished
        }),
{
    broadcast use lemma_micro;

    let r = m.next();
    let before = micro(c, m.bus).memory;
    if m.addr < data.len() {
        let p = part(data, m.addr);
        assert(fx2lp::chunk(data, m.addr) =~= p);
        let end = m.addr + p.len();
        let now = before.union_prefer_right(at(m.addr, p));
        assert(micro(c, r.bus).memory == now);
        assert forall|k: int| 0 <= k < end implies #[trigger] now.contains_key(k) && now[k]
            == data.take(end)[k] by {
            if k < m.addr {
                assert(before.contains_key(k));
            } else {
                assert(at(m.addr, p).contains_key(k));
            }
        }
        assert(reads_back(r));
    } else {
        assert(data.take(m.addr) =~= data);
        let release = fx2lp::set_reset(false);
        assert(release->ControlOut_data[0] == 0);
        assert(seq![1u8][0] == 1);
        assert(r.bus == m.bus.push(release));
    }
}

proof fn lemma_sram_so_far(bus: Seq<Act>, data: Seq<u8>, replies: Seq<Seq<u8>>, c: Micro)
    requires
        data.len() <= 16384,
        micro(c, bus).clean,
    ensures
        sram_so_far(uploads::sram_after(fx2lp::sram_begun(bus, data), replies), c, data),
    decreases replies.len(),
{
    broadcast use lemma_micro;

    let m = fx2lp::sram_begun(bus, data);
    if replies.len() == 0 {
        let hold = fx2lp::set_reset(true);
        assert(hold->ControlOut_data =~= seq![1u8]);
        lemma_sram_next(
            Sram { bus: bus.push(hold), data, addr: 0, stage: UploadStage::Finished },
            c,
            data,
        );
    } else {
        let p = uploads::sram_after(m, replies.drop_last());
        lemma_sram_so_far(bus, data, replies.drop_last(), c);
        if p.stage == UploadStage::Verify {
            law_memory_checked(p, replies.last());
            let q = part(data, p.addr);
            assert(fx2lp::chunk(data, p.addr) =~= q);
            if brings(replies.last(), q) {
                lemma_sram_next(Sram { addr: p.addr + q.len(), ..p }, c, data);
            }
        }
    }
}

/// When an upload to the memory is finished, the memory holds the firmware, and the microcontroller
/// runs. It was held while its memory was written, and is still held after a failure. What was
/// written is read back at once.
pub proof fn law_memory_uploaded(bus: Seq<Act>, data: Seq<u8>, replies: Seq<Seq<u8>>, c: Micro)
    requires
        data.len() <= 16384,
        micro(c, bus).clean,
    ensures
        ({
            let m = uploads::sram_after(fx2lp::sram_begun(bus, data), replies);
            let r = micro(c, m.bus);
            &&& r.clean
            &&& m.stage == UploadStage::Finished ==> !r.held && holds(r.memory, data)
            &&& m.stage == UploadStage::Verify ==> r.held && reads_back(m)
            &&& m.stage == UploadStage::Failed ==> r.held
        }),
{
    lemma_sram_so_far(bus, data, replies, c);
}

/// The upload goes on with the next bytes if those before were read back as they were written; if
/// not, it fails and does nothing more.
pub proof fn law_memory_checked(m: Sram, reply: Seq<u8>)
    requires
        m.stage == UploadStage::Verify,
        0 <= m.addr < m.data.len(),
    ensures
        ({
            let p = part(m.data, m.addr);
            let r = m.resume(reply);
            &&& r.data == m.data
            &&& if brings(reply, p) {
                &&& r.addr == m.addr + p.len()
                &&& r == (Sram { addr: m.addr + p.len(), ..m }).next()
                &&& r.stage == (if r.addr < m.data.len() {
                    UploadStage::Verify
                } else {
                    UploadStage::Finished
                })
            } else {
                &&& r.stage == UploadStage::Failed
                &&& r.bus == m.bus
            }
        }),
{
    assert(fx2lp::chunk(m.data, m.addr) =~= part(m.data, m.addr));
    lemma_brings(reply, part(m.data, m.addr));
}

/// What fits where.
pub proof fn law_sizes(len: int, addr: int, size: int)
    requires
        0 <= len,
    ensures
        len <= fx2lp::FX2LP_SIZE <==> len <= 16384,
        fx2lp::padded_size(len) <= fx2lp::FX2LP_SIZE <==> len <= 16367,
        fx2lp::eeprom_takes(addr, size) <==> 0 <= addr < 16384 && addr % 32 == 0 && size <= 32,
{
}

/// What the EEPROM is to hold: the header of the boot loader, with the size of the firmware, the
/// firmware, the end of the reset, and then `0xff` up to the end of a page.
pub proof fn law_image_bytes(data: Seq<u8>)
    requires
        data.len() <= 16367,
    ensures
        ({
            let image = fx2lp::eeprom_image(data);
            let n = data.len() as int;
            &&& image.len() % 32 == 0
            &&& n + 17 <= image.len() < n + 17 + 32
            &&& image.len() <= 16384
            &&& image.take(8) == seq![0xc2u8, 0xff, 0xff, 0xff, 0xff, 0xff, 0xff, 0x01]
            &&& 256 * image[8] + image[9] == n
            &&& image[10] == 0
            &&& image[11] == 0
            &&& image.subrange(12, 12 + n) == data
            &&& image.subrange(12 + n, 17 + n) == seq![0x80u8, 0x01, 0xe6, 0x00, 0x00]
            &&& forall|k: int| 17 + n <= k < image.len() ==> #[trigger] image[k] == 0xff
        }),
{
    let image = fx2lp::eeprom_image(data);
    let n = data.len() as int;
    let header = fx2lp::eeprom_header(n);
    assert(image.len() == fx2lp::padded_size(n));
    assert forall|k: int| 0 <= k < 12 implies #[trigger] image[k] == header[k] by {}
    assert(image.take(8) =~= seq![0xc2u8, 0xff, 0xff, 0xff, 0xff, 0xff, 0xff, 0x01]);
    assert(image[8] == header[8] && image[9] == header[9]);
    assert(image[10] == header[10] && image[11] == header[11]);
    assert(image.subrange(12, 12 + n) =~= data);
    assert(image.subrange(12 + n, 17 + n) =~= seq![0x80u8, 0x01, 0xe6, 0x00, 0x00]);
}

/// An EEPROM on the I2C bus.
pub struct Prom {
    pub cells: Map<int, u8>,
    /// Where the next read begins.
    pub pointer: int,
    /// What was written last is stored.
    pub stored: bool,
    /// It was written in parts of its pages, and left alone while it stored them.
    pub clean: bool,
}

/// What a request or a pause does to an EEPROM.
pub open spec fn stores(c: Prom, act: Act) -> Prom {
    match act {
        Act::ControlOut { request, value, index, data } => if request != 0xb1 || index != 0 || value
            != 0xa2 || data.len() < 2 {
            c
        } else {
            let addr = 256 * data[0] + data[1];
            let bytes = data.skip(2);
            if bytes.len() == 0 {
                Prom { pointer: addr, clean: c.clean && c.stored, ..c }
            } else {
                Prom {
                    cells: c.cells.union_prefer_right(at(addr, bytes)),
                    stored: false,
                    clean: c.clean && c.stored && addr % 32 == 0 && bytes.len() <= 32,
                    ..c
                }
            }
        },
        Act::ControlIn { request, value, index, length } => if request == 0xb0 && index == 0
            && value == 0xa3 {
            Prom { clean: c.clean && c.stored, ..c }
        } else {
            c
        },
        Act::Sleep { millis } => Prom { stored: c.stored || millis >= 7, ..c },
        _ => c,
    }
}

/// An EEPROM after some requests.
pub open spec fn prom(c: Prom, bus: Seq<Act>) -> Prom
    decreases bus.len(),
{
    if bus.len() == 0 {
        c
    } else {
        stores(prom(c, bus.drop_last()), bus.last())
    }
}

broadcast proof fn lemma_prom(c: Prom, bus: Seq<Act>, act: Act)
    ensures
        #[trigger] prom(c, bus.push(act)) == stores(prom(c, bus), act),
{
    assert(bus.push(act).drop_last() =~= bus);
}

/// An upload waits for the page that it has just written: it has put the pointer of the EEPROM
/// there and asks for as many bytes.
pub open spec fn asks_for_page(m: Eeprom, c: Prom) -> bool {
    &&& m.bus.len() > 0
    &&& m.bus.last() matches Act::ControlIn { request, value, index, length } && request == 0xb0
        && value == 0xa3 && index == 0 && length == 32
    &&& prom(c, m.bus).pointer == m.addr
}

/// How far an upload to the EEPROM is.
spec fn eeprom_so_far(m: Eeprom, c: Prom, image: Seq<u8>) -> bool {
    let n = prom(c, m.bus);
    &&& m.image == image
    &&& n.clean
    &&& n.stored
    &&& 0 <= m.addr <= image.len()
    &&& m.addr % 32 == 0
    &&& match m.stage {
        UploadStage::Verify => m.addr < image.len() && asks_for_page(m, c) && holds(
            n.cells,
            image.take(m.addr + 32),
        ),
        UploadStage::Finished => holds(n.cells, image),
        UploadStage::Failed => true,
    }
}

proof fn lemma_eeprom_next(m: Eeprom, c: Prom, image: Seq<u8>)
    requires
        m.image == image,
        image.len() <= 16384,
        image.len() % 32 == 0,
        0 <= m.addr <= image.len(),
        m.addr % 32 == 0,
        prom(c, m.bus).stored,
        prom(c, m.bus).clean,
        holds(prom(c, m.bus).cells, image.take(m.addr)),
    ensures
        eeprom_so_far(m.next(), c, image),
        m.next().addr == m.addr,
{
    broadcast use lemma_prom;

    let r = m.next();
    let before = prom(c, m.bus).cells;
    if m.addr < image.len() {
        let page = image.subrange(m.addr, m.addr + 32);
        let address = fx2lp::eeprom_address(m.addr);
        let write = usb::control_out(0xb1, 0xa2, address + page);
        let sleep = Act::Sleep { millis: 7 };
        let point = usb::control_out(0xb1, 0xa2, address);
        assert(0xa2u16 | 1 == 0xa3u16) by (bit_vector);
        let read = usb::control_in(0xb0, 0xa3, 32);
        let s = m.bus.push(write).push(sleep).push(point).push(read);
        assert(r.bus =~= s);
        assert((address + page).skip(2) =~= page);
        assert(address.skip(2) =~= Seq::empty());
        assert(256 * address[0] + address[1] == m.addr);
        assert((address + page)[0] == address[0] && (address + page)[1] == address[1]);
        let now = before.union_prefer_right(at(m.addr, page));
        assert(prom(c, s).cells == now);
        let end = m.addr + 32;
        assert forall|k: int| 0 <= k < end implies #[trigger] now.contains_key(k) && now[k]
            == image.take(end)[k] by {
            if k < m.addr {
                assert(before.contains_key(k));
            } else {
                assert(at(m.addr, page).contains_key(k));
            }
        }
    } else {
        assert(image.take(m.addr) =~= image);
    }
}

/// The upload goes on with the next page if the one before was read back as it was written; if
/// not, it fails and does nothing more.
pub proof fn law_page_checked(m: Eeprom, reply: Seq<u8>)
    requires
        m.stage == UploadStage::Verify,
        0 <= m.addr,
        m.addr + 32 <= m.image.len(),
    ensures
        ({
            let r = m.resume(reply);
            &&& r.image == m.image
            &&& if brings(reply, m.image.subrange(m.addr, m.addr + 32)) {
                &&& r.addr == m.addr + 32
                &&& r == (Eeprom { addr: m.addr + 32, ..m }).next()
                &&& r.stage == (if r.addr < m.image.len() {
                    UploadStage::Verify
                } else {
                    UploadStage::Finished
                })
            } else {
                &&& r.stage == UploadStage::Failed
                &&& r.bus == m.bus
            }
        }),
{
    lemma_brings(reply, m.image.subrange(m.addr, m.addr + 32));
}

proof fn lemma_eeprom_step(p: Eeprom, reply: Seq<u8>, c: Prom, image: Seq<u8>)
    requires
        image.len() <= 16384,
        image.len() % 32 == 0,
        eeprom_so_far(p, c, image),
    ensures
        eeprom_so_far(p.resume(reply), c, image),
{
    if p.stage == UploadStage::Verify {
        law_page_checked(p, reply);
        if brings(reply, image.subrange(p.addr, p.addr + 32)) {
            lemma_eeprom_next(Eeprom { addr: p.addr + 32, ..p }, c, image);
        }
    }
}

proof fn lemma_eeprom_so_far(m: Eeprom, replies: Seq<Seq<u8>>, c: Prom, image: Seq<u8>)
    requires
        image.len() <= 16384,
        image.len() % 32 == 0,
        eeprom_so_far(m, c, image),
    ensures
        eeprom_so_far(uploads::eeprom_after(m, replies), c, image),
    decreases replies.len(),
{
    if replies.len() > 0 {
        lemma_eeprom_so_far(m, replies.drop_last(), c, image);
        lemma_eeprom_step(
            uploads::eeprom_after(m, replies.drop_last()),
            replies.last(),
            c,
            image,
        );
    }
}

/// When an upload to the EEPROM is finished, the EEPROM holds the image. It was written in pages
/// and had the time to store each of them before it was asked for anything. What was written is
/// read back at once.
pub proof fn law_eeprom_uploaded(bus: Seq<Act>, data: Seq<u8>, replies: Seq<Seq<u8>>, c: Prom)
    requires
        data.len() <= 16367,
        prom(c, bus).clean,
        prom(c, bus).stored,
    ensures
        ({
            let m = uploads::eeprom_after(fx2lp::eeprom_begun(bus, data), replies);
            let r = prom(c, m.bus);
            &&& r.clean
            &&& r.stored
            &&& m.stage == UploadStage::Finished ==> holds(r.cells, fx2lp::eeprom_image(data))
            &&& m.stage == UploadStage::Verify ==> asks_for_page(m, c)
        }),
{
    let image = fx2lp::eeprom_image(data);
    law_image_bytes(data);
    lemma_eeprom_next(Eeprom { bus, image, addr: 0, stage: UploadStage::Finished }, c, image);
    lemma_eeprom_so_far(fx2lp::eeprom_begun(bus, data), replies, c, image);
}

/// A step ends an upload if and only if the upload has ended, and fails if and only if it has
/// failed. As many bytes are waited for as were written.
pub proof fn law_step_outcome(stage: UploadStage, failure: Fx2lpError, data: Seq<u8>, addr: int)
    requires
        0 <= addr <= data.len(),
    ensures
        fx2lp::outcome(stage, failure) == (match stage {
            UploadStage::Verify => Ok::<SessionStep, Fx2lpError>(SessionStep::Wait),
            UploadStage::Finished => Ok(SessionStep::Finished),
            UploadStage::Failed => Err(failure),
        }),
        fx2lp::chunk(data, addr) == part(data, addr),
        fx2lp::page(data, addr) == data.subrange(addr, addr + 32),
{
}

} // verus!
