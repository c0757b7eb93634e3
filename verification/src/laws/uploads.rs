//! What an upload leaves in the device, and when it counts as done.

use vstd::prelude::*;

use crate::flash;
use crate::flash::{Flash, FlashStage, Wait};
use crate::fpga::{FpgaError, STATUS_BUSY, STATUS_FAIL};
use crate::fx2lp;
use crate::fx2lp::{Eeprom, Sram, UploadStage, EEPROM_ADDR, EEPROM_PAGE_SIZE, FX2LP_SIZE};
use crate::jed::Jed;
use crate::jtag;
use crate::laws::files;
use crate::usb;
use crate::usb::{Act, CMD_FX2LP_REQUEST, CMD_I2C_WRITE, USB_EP0_SIZE};

verus! {

/// Bytes at consecutive addresses, from `addr` on.
pub open spec fn placed(addr: int, data: Seq<u8>) -> Map<int, u8> {
    Map::new(|k: int| addr <= k < addr + data.len(), |k: int| data[k - addr])
}

/// The memory of the microcontroller after what was done with the device, as far as it was
/// written.
pub open spec fn memory(bus: Seq<Act>) -> Map<int, u8>
    decreases bus.len(),
{
    if bus.len() == 0 {
        Map::empty()
    } else {
        let before = memory(bus.drop_last());
        match bus.last() {
            Act::ControlOut { request, value, index, data } => if request == CMD_FX2LP_REQUEST {
                before.union_prefer_right(placed(value as int, data))
            } else {
                before
            },
            _ => before,
        }
    }
}

/// The EEPROM after what was done with the device, as far as it was written.
pub open spec fn eeprom(bus: Seq<Act>) -> Map<int, u8>
    decreases bus.len(),
{
    if bus.len() == 0 {
        Map::empty()
    } else {
        let before = eeprom(bus.drop_last());
        match bus.last() {
            Act::ControlOut { request, value, index, data } => if request == CMD_I2C_WRITE && value
                == EEPROM_ADDR && data.len() >= 2 {
                before.union_prefer_right(placed(data[0] * 256 + data[1], data.skip(2)))
            } else {
                before
            },
            _ => before,
        }
    }
}

/// A memory holds bytes at its start.
pub open spec fn holds(memory: Map<int, u8>, data: Seq<u8>) -> bool {
    forall|k: int| 0 <= k < data.len() ==> #[trigger] memory.contains_key(k) && memory[k] == data[k]
}

/// An upload to the memory after some replies.
pub open spec fn sram_after(m: Sram, replies: Seq<Seq<u8>>) -> Sram
    decreases replies.len(),
{
    if replies.len() == 0 {
        m
    } else {
        sram_after(m, replies.drop_last()).resume(replies.last())
    }
}

/// How many replies an upload to the memory takes.
pub open spec fn sram_chunks(data: Seq<u8>) -> int {
    (data.len() + USB_EP0_SIZE - 1) / USB_EP0_SIZE as int
}

/// The reply to what was written as number `i` is what was written.
pub open spec fn sram_agrees(data: Seq<u8>, replies: Seq<Seq<u8>>, i: int) -> bool {
    let part = fx2lp::chunk(data, USB_EP0_SIZE * i);
    usb::received(replies[i], part.len() as int) == part
}

/// The first replies, as many as there are or as are needed, agree.
pub open spec fn sram_all_agree(data: Seq<u8>, replies: Seq<Seq<u8>>) -> bool {
    forall|i: int|
        0 <= i < replies.len() && i < sram_chunks(data) ==> #[trigger] sram_agrees(data, replies, i)
}

proof fn lemma_sram(bus: Seq<Act>, data: Seq<u8>, replies: Seq<Seq<u8>>)
    requires
        data.len() <= FX2LP_SIZE,
    ensures
        ({
            let r = sram_after(fx2lp::sram_begun(bus, data), replies);
            let n = USB_EP0_SIZE * replies.len();
            &&& r.data == data
            &&& !sram_all_agree(data, replies) <==> r.stage == UploadStage::Failed
            &&& sram_all_agree(data, replies) && n < data.len() ==> {
                &&& r.stage == UploadStage::Verify
                &&& r.addr == n
                &&& holds(memory(r.bus), data.take(n + fx2lp::chunk(data, n).len()))
            }
            &&& sram_all_agree(data, replies) && n >= data.len() ==> {
                &&& r.stage == UploadStage::Finished
                &&& r.addr == data.len()
                &&& holds(memory(r.bus), data)
            }
        }),
    decreases replies.len(),
{
    let m = fx2lp::sram_begun(bus, data);
    let r = sram_after(m, replies);
    if replies.len() == 0 {
        let reset = bus.push(fx2lp::set_reset(true));
        lemma_sram_next(
            Sram { bus: reset, data, addr: 0, stage: UploadStage::Finished },
        );
    } else {
        let before = replies.drop_last();
        let p = sram_after(m, before);
        let j = before.len() as int;
        lemma_sram(bus, data, before);
        assert forall|i: int| 0 <= i < j implies sram_agrees(data, replies, i) == sram_agrees(
            data,
            before,
            i,
        ) by {}
        if sram_all_agree(data, before) {
            if USB_EP0_SIZE * j < data.len() {
                let part = fx2lp::chunk(data, USB_EP0_SIZE * j);
                if usb::received(replies.last(), part.len() as int) == part {
                    assert(sram_agrees(data, replies, j));
                    assert(sram_all_agree(data, replies));
                    lemma_sram_next(Sram { addr: p.addr + part.len(), ..p });
                } else {
                    assert(!sram_agrees(data, replies, j));
                }
            } else {
                assert(sram_all_agree(data, replies));
            }
        } else {
            let i = choose|i: int|
                0 <= i < before.len() && i < sram_chunks(data) && !#[trigger] sram_agrees(
                    data,
                    before,
                    i,
                );
            assert(!sram_agrees(data, replies, i));
        }
    }
}

/// What the next step writes is added to what the memory holds.
proof fn lemma_sram_next(m: Sram)
    requires
        m.data.len() <= FX2LP_SIZE,
        0 <= m.addr <= m.data.len(),
        holds(memory(m.bus), m.data.take(m.addr)),
    ensures
        m.addr < m.data.len() ==> holds(
            memory(m.next().bus),
            m.data.take(m.addr + fx2lp::chunk(m.data, m.addr).len()),
        ),
        m.addr == m.data.len() ==> holds(memory(m.next().bus), m.data),
{
    let data = m.data;
    let old_memory = memory(m.bus);
    if m.addr < data.len() {
        let part = fx2lp::chunk(data, m.addr);
        let out = usb::control_out(CMD_FX2LP_REQUEST, m.addr as u16, part);
        let read = usb::control_in(CMD_FX2LP_REQUEST, m.addr as u16, part.len() as u16);
        let one = m.bus.push(out);
        assert(m.next().bus == one.push(read));
        assert(one.push(read).drop_last() =~= one);
        assert(one.drop_last() =~= m.bus);
        let now = memory(one);
        assert(now == old_memory.union_prefer_right(placed(m.addr, part)));
        let end = m.addr + part.len();
        assert forall|k: int| 0 <= k < end implies #[trigger] now.contains_key(k) && now[k]
            == data.take(end)[k] by {
            if k < m.addr {
                assert(old_memory.contains_key(k));
            } else {
                assert(placed(m.addr, part).contains_key(k));
            }
        }
    } else {
        let one = m.bus.push(fx2lp::set_reset(false));
        assert(one.drop_last() =~= m.bus);
        let now = memory(one);
        assert(data.take(m.addr) =~= data);
        assert forall|k: int| 0 <= k < data.len() implies #[trigger] now.contains_key(k) && now[k]
            == data[k] by {
            assert(old_memory.contains_key(k));
        }
    }
}

/// An upload to the memory is done if and only if everything was read back as it was written;
/// the memory then holds the firmware. It fails if and only if something was read back
/// otherwise.
pub proof fn law_sram_upload(bus: Seq<Act>, data: Seq<u8>, replies: Seq<Seq<u8>>)
    requires
        data.len() <= FX2LP_SIZE,
    ensures
        ({
            let r = sram_after(fx2lp::sram_begun(bus, data), replies);
            &&& r.stage == UploadStage::Failed <==> !sram_all_agree(data, replies)
            &&& r.stage == UploadStage::Finished <==> sram_all_agree(data, replies)
                && replies.len() >= sram_chunks(data)
            &&& r.stage == UploadStage::Finished ==> holds(memory(r.bus), data)
        }),
{
    lemma_sram(bus, data, replies);
}

/// The microcontroller is let go only when the upload to its memory is done.
pub proof fn law_firmware_started_last(bus: Seq<Act>, data: Seq<u8>, replies: Seq<Seq<u8>>)
    requires
        data.len() <= FX2LP_SIZE,
        !bus.contains(fx2lp::set_reset(false)),
    ensures
        ({
            let r = sram_after(fx2lp::sram_begun(bus, data), replies);
            r.stage == UploadStage::Finished <==> r.bus.contains(fx2lp::set_reset(false))
        }),
    decreases replies.len(),
{
    let release = fx2lp::set_reset(false);
    let m = fx2lp::sram_begun(bus, data);
    lemma_sram(bus, data, replies);
    if replies.len() == 0 {
        let reset = bus.push(fx2lp::set_reset(true));
        assert(fx2lp::set_reset(true) != release) by {
            assert(fx2lp::set_reset(true)->ControlOut_data[0] != release->ControlOut_data[0]);
        }
        lemma_no_release(Sram { bus: reset, data, addr: 0, stage: UploadStage::Finished });
    } else {
        let p = sram_after(m, replies.drop_last());
        let part = fx2lp::chunk(data, p.addr);
        law_firmware_started_last(bus, data, replies.drop_last());
        lemma_sram(bus, data, replies.drop_last());
        if p.stage == UploadStage::Verify && usb::received(replies.last(), part.len() as int)
            == part {
            lemma_no_release(Sram { addr: p.addr + part.len(), ..p });
        }
    }
}

proof fn lemma_no_release(m: Sram)
    requires
        m.data.len() <= FX2LP_SIZE,
        0 <= m.addr <= m.data.len(),
        !m.bus.contains(fx2lp::set_reset(false)),
    ensures
        m.addr < m.data.len() ==> !m.next().bus.contains(fx2lp::set_reset(false)),
        m.addr == m.data.len() ==> m.next().bus.contains(fx2lp::set_reset(false)),
{
    let release = fx2lp::set_reset(false);
    let r = m.next();
    if m.addr < m.data.len() {
        assert forall|i: int| 0 <= i < r.bus.len() implies r.bus[i] != release by {
            if i < m.bus.len() {
                assert(r.bus[i] == m.bus[i]);
                assert(m.bus.contains(m.bus[i]));
            }
        }
    } else {
        assert(r.bus[m.bus.len() as int] == release);
    }
}

/// An upload to the EEPROM after some replies.
pub open spec fn eeprom_after(m: Eeprom, replies: Seq<Seq<u8>>) -> Eeprom
    decreases replies.len(),
{
    if replies.len() == 0 {
        m
    } else {
        eeprom_after(m, replies.drop_last()).resume(replies.last())
    }
}

/// How many pages an image has.
pub open spec fn pages(image: Seq<u8>) -> int {
    image.len() as int / EEPROM_PAGE_SIZE as int
}

/// The reply to page `i` is what was written.
pub open spec fn page_agrees(image: Seq<u8>, replies: Seq<Seq<u8>>, i: int) -> bool {
    usb::received(replies[i], EEPROM_PAGE_SIZE as int) == fx2lp::page(image, EEPROM_PAGE_SIZE * i)
}

/// The first replies, as many as there are or as are needed, agree.
pub open spec fn pages_agree(image: Seq<u8>, replies: Seq<Seq<u8>>) -> bool {
    forall|i: int|
        0 <= i < replies.len() && i < pages(image) ==> #[trigger] page_agrees(image, replies, i)
}

/// What the next step writes is added to what the EEPROM holds.
proof fn lemma_eeprom_next(m: Eeprom)
    requires
        m.image.len() <= FX2LP_SIZE,
        0 <= m.addr,
        m.addr + EEPROM_PAGE_SIZE <= m.image.len(),
        holds(eeprom(m.bus), m.image.take(m.addr)),
    ensures
        holds(eeprom(m.next().bus), m.image.take(m.addr + EEPROM_PAGE_SIZE)),
{
    let data = fx2lp::page(m.image, m.addr);
    let old_memory = eeprom(m.bus);
    let bytes = fx2lp::eeprom_address(m.addr) + data;
    let write = usb::control_out(CMD_I2C_WRITE, EEPROM_ADDR, bytes);
    let sleep = Act::Sleep { millis: fx2lp::EEPROM_WRITE_MS };
    let address = usb::control_out(CMD_I2C_WRITE, EEPROM_ADDR, fx2lp::eeprom_address(m.addr));
    let read = usb::control_in(usb::CMD_I2C_READ, EEPROM_ADDR | 1, EEPROM_PAGE_SIZE as u16);
    let a = m.bus.push(write);
    let b = a.push(sleep);
    let c = b.push(address);
    let d = c.push(read);
    assert(m.next().bus =~= d);
    assert(a.drop_last() =~= m.bus);
    assert(b.drop_last() =~= a);
    assert(c.drop_last() =~= b);
    assert(d.drop_last() =~= c);
    assert(bytes.skip(2) =~= data);
    assert(bytes[0] * 256 + bytes[1] == m.addr);
    let now = eeprom(a);
    assert(now == old_memory.union_prefer_right(placed(m.addr, data)));
    assert(eeprom(b) == now);
    assert(fx2lp::eeprom_address(m.addr).skip(2) =~= Seq::empty());
    let nothing = placed(m.addr, Seq::empty());
    let last = eeprom(c);
    assert(last == now.union_prefer_right(nothing));
    assert(eeprom(d) == last);
    let end = m.addr + EEPROM_PAGE_SIZE;
    assert forall|k: int| 0 <= k < end implies #[trigger] last.contains_key(k) && last[k]
        == m.image.take(end)[k] by {
        assert(!nothing.contains_key(k));
        if k < m.addr {
            assert(old_memory.contains_key(k));
        } else {
            assert(placed(m.addr, data).contains_key(k));
        }
        assert(now.contains_key(k));
    }
}

proof fn lemma_eeprom(bus: Seq<Act>, image: Seq<u8>, replies: Seq<Seq<u8>>)
    requires
        0 < image.len() <= FX2LP_SIZE,
        image.len() % EEPROM_PAGE_SIZE as nat == 0,
    ensures
        ({
            let m = Eeprom { bus, image, addr: 0, stage: UploadStage::Finished }.next();
            let r = eeprom_after(m, replies);
            let n = EEPROM_PAGE_SIZE * replies.len();
            &&& r.image == image
            &&& !pages_agree(image, replies) <==> r.stage == UploadStage::Failed
            &&& pages_agree(image, replies) && n < image.len() ==> {
                &&& r.stage == UploadStage::Verify
                &&& r.addr == n
                &&& holds(eeprom(r.bus), image.take(n + EEPROM_PAGE_SIZE))
            }
            &&& pages_agree(image, replies) && n >= image.len() ==> {
                &&& r.stage == UploadStage::Finished
                &&& holds(eeprom(r.bus), image)
            }
        }),
    decreases replies.len(),
{
    let start = Eeprom { bus, image, addr: 0, stage: UploadStage::Finished };
    let m = start.next();
    let r = eeprom_after(m, replies);
    if replies.len() == 0 {
        lemma_eeprom_next(start);
    } else {
        let before = replies.drop_last();
        let p = eeprom_after(m, before);
        let j = before.len() as int;
        lemma_eeprom(bus, image, before);
        assert forall|i: int| 0 <= i < j implies page_agrees(image, replies, i) == page_agrees(
            image,
            before,
            i,
        ) by {}
        if pages_agree(image, before) {
            if EEPROM_PAGE_SIZE * j < image.len() {
                if usb::received(replies.last(), EEPROM_PAGE_SIZE as int) == fx2lp::page(
                    image,
                    EEPROM_PAGE_SIZE * j,
                ) {
                    assert(page_agrees(image, replies, j));
                    assert(pages_agree(image, replies));
                    let q = Eeprom { addr: p.addr + EEPROM_PAGE_SIZE, ..p };
                    if q.addr < image.len() {
                        lemma_eeprom_next(q);
                    } else {
                        assert(image.take(q.addr) =~= image);
                    }
                } else {
                    assert(!page_agrees(image, replies, j));
                }
            } else {
                assert(pages_agree(image, replies));
            }
        } else {
            let i = choose|i: int|
                0 <= i < before.len() && i < pages(image) && !#[trigger] page_agrees(
                    image,
                    before,
                    i,
                );
            assert(!page_agrees(image, replies, i));
        }
    }
}

/// An upload to the EEPROM is done if and only if every page was read back as it was written;
/// the EEPROM then holds the image. It fails if and only if a page was read back otherwise.
pub proof fn law_eeprom_upload(bus: Seq<Act>, data: Seq<u8>, replies: Seq<Seq<u8>>)
    requires
        fx2lp::padded_size(data.len() as int) <= FX2LP_SIZE,
    ensures
        ({
            let image = fx2lp::eeprom_image(data);
            let r = eeprom_after(fx2lp::eeprom_begun(bus, data), replies);
            &&& r.stage == UploadStage::Failed <==> !pages_agree(image, replies)
            &&& r.stage == UploadStage::Finished <==> pages_agree(image, replies) && replies.len()
                >= pages(image)
            &&& r.stage == UploadStage::Finished ==> holds(eeprom(r.bus), image)
        }),
{
    files::law_eeprom_image(data);
    lemma_eeprom(bus, fx2lp::eeprom_image(data), replies);
}

/// A session with the flash memory after some replies.
pub open spec fn flash_after(m: Flash, replies: Seq<Seq<u8>>) -> Flash
    decreases replies.len(),
{
    if replies.len() == 0 {
        m
    } else {
        flash_after(m, replies.drop_last()).resume(replies.last())
    }
}

/// One of the replies came when `stage` waited for it, and was `expected`.
pub open spec fn read_back(
    m: Flash,
    replies: Seq<Seq<u8>>,
    stage: FlashStage,
    expected: Seq<u8>,
) -> bool {
    exists|i: int| #[trigger] is_reply(m, replies, i, stage, expected)
}

/// Reply `i` came when `stage` waited for it, and was `expected`.
pub open spec fn is_reply(
    m: Flash,
    replies: Seq<Seq<u8>>,
    i: int,
    stage: FlashStage,
    expected: Seq<u8>,
) -> bool {
    &&& 0 <= i < replies.len()
    &&& flash_after(m, replies.take(i)).stage == stage
    &&& usb::unpack_samples(replies[i], flash::samples(stage)) == expected
}

proof fn lemma_read_back_grows(
    m: Flash,
    replies: Seq<Seq<u8>>,
    stage: FlashStage,
    expected: Seq<u8>,
)
    requires
        replies.len() > 0,
        read_back(m, replies.drop_last(), stage, expected),
    ensures
        read_back(m, replies, stage, expected),
{
    let i = choose|i: int| #[trigger] is_reply(m, replies.drop_last(), i, stage, expected);
    assert(replies.drop_last().take(i) =~= replies.take(i));
    assert(is_reply(m, replies, i, stage, expected));
}

proof fn lemma_read_back_last(
    m: Flash,
    replies: Seq<Seq<u8>>,
    stage: FlashStage,
    expected: Seq<u8>,
)
    requires
        replies.len() > 0,
        flash_after(m, replies.drop_last()).stage == stage,
        usb::unpack_samples(replies.last(), flash::samples(stage)) == expected,
    ensures
        read_back(m, replies, stage, expected),
{
    let i = replies.len() - 1;
    assert(replies.take(i) =~= replies.drop_last());
    assert(is_reply(m, replies, i, stage, expected));
}

/// How many rows were verified when a session is in a stage.
spec fn rows_verified(stage: FlashStage, rows: int) -> int {
    match stage {
        FlashStage::Busy { of: Wait::Erase } => 0,
        FlashStage::Busy { of: Wait::Row { row } } => 0,
        FlashStage::Status { of: Wait::Erase } => 0,
        FlashStage::Status { of: Wait::Row { row } } => 0,
        FlashStage::VerifyRow { row } => row as int,
        FlashStage::Failed { error } => 0,
        _ => rows,
    }
}

spec fn feature_verified(stage: FlashStage) -> bool {
    match stage {
        FlashStage::Busy { of: Wait::Feabits } => true,
        FlashStage::Busy { of: Wait::Done } => true,
        FlashStage::Status { of: Wait::Feabits } => true,
        FlashStage::Status { of: Wait::Done } => true,
        FlashStage::VerifyFeabits => true,
        FlashStage::Finished => true,
        _ => false,
    }
}

spec fn feabits_verified(stage: FlashStage) -> bool {
    match stage {
        FlashStage::Busy { of: Wait::Done } => true,
        FlashStage::Status { of: Wait::Done } => true,
        FlashStage::Finished => true,
        _ => false,
    }
}

/// What one reply can verify.
proof fn lemma_flash_step(p: Flash, reply: Seq<u8>)
    requires
        !p.erase_only,
        p.jed.config.len() <= usize::MAX,
        p.stage matches FlashStage::VerifyRow { row } ==> row < p.rows(),
    ensures
        ({
            let r = p.resume(reply);
            let read = usb::unpack_samples(reply, flash::samples(p.stage));
            &&& r.jed == p.jed
            &&& !r.erase_only
            &&& r.stage matches FlashStage::VerifyRow { row } ==> row < r.rows()
            &&& forall|row: int|
                0 <= row < rows_verified(r.stage, p.rows()) && row >= rows_verified(
                    p.stage,
                    p.rows(),
                ) ==> p.stage == (FlashStage::VerifyRow { row: row as usize }) && read
                    == #[trigger] p.row(row)
            &&& feature_verified(r.stage) && !feature_verified(p.stage) ==> p.stage
                == FlashStage::VerifyFeature && read == p.jed.feature
            &&& feabits_verified(r.stage) && !feabits_verified(p.stage) ==> p.stage
                == FlashStage::VerifyFeabits && read == p.jed.feabits
        }),
{
}

proof fn lemma_flash(bus: Seq<Act>, jed: Jed, replies: Seq<Seq<u8>>)
    requires
        jed.config.len() <= usize::MAX,
    ensures
        ({
            let m = flash::begun(bus, false, jed);
            let r = flash_after(m, replies);
            &&& m.jed == jed
            &&& r.jed == jed
            &&& !r.erase_only
            &&& r.stage matches FlashStage::VerifyRow { row } ==> row < r.rows()
            &&& forall|row: int|
                0 <= row < rows_verified(r.stage, m.rows()) ==> read_back(
                    m,
                    replies,
                    FlashStage::VerifyRow { row: row as usize },
                    #[trigger] m.row(row),
                )
            &&& feature_verified(r.stage) ==> read_back(
                m,
                replies,
                FlashStage::VerifyFeature,
                jed.feature,
            )
            &&& feabits_verified(r.stage) ==> read_back(
                m,
                replies,
                FlashStage::VerifyFeabits,
                jed.feabits,
            )
        }),
    decreases replies.len(),
{
    let m = flash::begun(bus, false, jed);
    if replies.len() == 0 {
        lemma_flash_begun(bus, jed);
    } else {
        let before = replies.drop_last();
        let p = flash_after(m, before);
        lemma_flash(bus, jed, before);
        lemma_flash_step(p, replies.last());
        lemma_flash_reply(m, replies);
    }
}

proof fn lemma_flash_begun(bus: Seq<Act>, jed: Jed)
    ensures
        flash::begun(bus, false, jed).jed == jed,
        !flash::begun(bus, false, jed).erase_only,
        flash::begun(bus, false, jed).stage == (FlashStage::Busy { of: Wait::Erase }),
{
}

/// What one more reply adds to what was read back.
proof fn lemma_flash_reply(m: Flash, replies: Seq<Seq<u8>>)
    requires
        replies.len() > 0,
    ensures
        ({
            let p = flash_after(m, replies.drop_last());
            let read = usb::unpack_samples(replies.last(), flash::samples(p.stage));
            forall|s: FlashStage, expected: Seq<u8>|
                read_back(m, replies.drop_last(), s, expected) || (p.stage == s && read == expected)
                    ==> #[trigger] read_back(m, replies, s, expected)
        }),
{
    let p = flash_after(m, replies.drop_last());
    let read = usb::unpack_samples(replies.last(), flash::samples(p.stage));
    assert forall|s: FlashStage, expected: Seq<u8>|
        read_back(m, replies.drop_last(), s, expected) || (p.stage == s && read
            == expected) implies #[trigger] read_back(m, replies, s, expected) by {
        if read_back(m, replies.drop_last(), s, expected) {
            lemma_read_back_grows(m, replies, s, expected);
        } else {
            lemma_read_back_last(m, replies, s, expected);
        }
    }
}

/// Programming the flash memory is done only if every row of the configuration, the feature row
/// and the feature bits were read back as they were written.
pub proof fn law_flash_verified(bus: Seq<Act>, jed: Jed, replies: Seq<Seq<u8>>)
    requires
        jed.config.len() <= usize::MAX,
        flash_after(flash::begun(bus, false, jed), replies).stage == FlashStage::Finished,
    ensures
        ({
            let m = flash::begun(bus, false, jed);
            &&& forall|row: int|
                0 <= row < m.rows() ==> read_back(
                    m,
                    replies,
                    FlashStage::VerifyRow { row: row as usize },
                    #[trigger] m.row(row),
                )
            &&& read_back(m, replies, FlashStage::VerifyFeature, jed.feature)
            &&& read_back(m, replies, FlashStage::VerifyFeabits, jed.feabits)
        }),
{
    lemma_flash(bus, jed, replies);
}

/// Erasing or programming the flash memory is done only if the device never said that it was
/// busy or had failed when it was asked for its status.
pub proof fn law_flash_status(
    bus: Seq<Act>,
    erase_only: bool,
    jed: Jed,
    replies: Seq<Seq<u8>>,
    i: int,
)
    requires
        flash_after(flash::begun(bus, erase_only, jed), replies).stage !is Failed,
        0 <= i < replies.len(),
        flash_after(flash::begun(bus, erase_only, jed), replies.take(i)).stage is Status,
    ensures
        usb::unpack_samples(replies[i], 32)[1] & STATUS_BUSY == 0,
        usb::unpack_samples(replies[i], 32)[1] & STATUS_FAIL == 0,
    decreases replies.len(),
{
    let m = flash::begun(bus, erase_only, jed);
    if i == replies.len() - 1 {
        assert(replies.take(i) =~= replies.drop_last());
    } else {
        assert(replies.drop_last().take(i) =~= replies.take(i));
        law_flash_status(bus, erase_only, jed, replies.drop_last(), i);
    }
}

/// What is wrong with a reply, if anything: the device is busy or has failed, or what was read
/// back is not what was written.
pub open spec fn fault(m: Flash, reply: Seq<u8>) -> Option<FpgaError> {
    let read = usb::unpack_samples(reply, flash::samples(m.stage));
    match m.stage {
        FlashStage::Status { .. } => if read[1] & STATUS_BUSY != 0 {
            Some(FpgaError::Busy)
        } else if read[1] & STATUS_FAIL != 0 {
            Some(FpgaError::Fail)
        } else {
            None
        },
        FlashStage::VerifyRow { row } => if read != m.row(row as int) {
            Some(FpgaError::Configuration)
        } else {
            None
        },
        FlashStage::VerifyFeature => if read != m.jed.feature {
            Some(FpgaError::FeatureRow)
        } else {
            None
        },
        FlashStage::VerifyFeabits => if read != m.jed.feabits {
            Some(FpgaError::Feabits)
        } else {
            None
        },
        _ => None,
    }
}

/// That is wrong with reply `i`.
pub open spec fn is_fault(m: Flash, replies: Seq<Seq<u8>>, i: int, error: FpgaError) -> bool {
    0 <= i < replies.len() && fault(flash_after(m, replies.take(i)), replies[i]) == Some(error)
}

/// A reply ends a session with an error if and only if it has that fault.
proof fn lemma_fault_step(p: Flash, reply: Seq<u8>, error: FpgaError)
    ensures
        p.resume(reply).stage == (FlashStage::Failed { error }) <==> p.stage
            == (FlashStage::Failed { error }) || fault(p, reply) == Some(error),
{
}

/// Erasing or programming the flash memory fails with an error if and only if one of the replies
/// has the fault that the error names.
pub proof fn law_flash_fails(
    bus: Seq<Act>,
    erase_only: bool,
    jed: Jed,
    replies: Seq<Seq<u8>>,
    error: FpgaError,
)
    ensures
        ({
            let m = flash::begun(bus, erase_only, jed);
            flash_after(m, replies).stage == (FlashStage::Failed { error }) <==> exists|i: int|
                #[trigger] is_fault(m, replies, i, error)
        }),
    decreases replies.len(),
{
    let m = flash::begun(bus, erase_only, jed);
    let failed = FlashStage::Failed { error };
    if replies.len() == 0 {
        lemma_waits_first(bus, erase_only, jed);
    } else {
        let before = replies.drop_last();
        let last = replies.len() - 1;
        let p = flash_after(m, before);
        law_flash_fails(bus, erase_only, jed, before, error);
        lemma_fault_step(p, replies.last(), error);
        assert(replies.take(last) =~= before);
        if p.stage == failed {
            let i = choose|i: int| #[trigger] is_fault(m, before, i, error);
            assert(before.take(i) =~= replies.take(i));
            assert(is_fault(m, replies, i, error));
        } else if fault(p, replies.last()) == Some(error) {
            assert(is_fault(m, replies, last, error));
        } else {
            assert forall|i: int| !#[trigger] is_fault(m, replies, i, error) by {
                if 0 <= i < last {
                    assert(before.take(i) =~= replies.take(i));
                    assert(!is_fault(m, before, i, error));
                }
            }
        }
    }
}

/// A fault is the end of a session: the device is told no instruction and no data any more, only
/// the reading is ended, and nothing is done about any later reply.
pub proof fn law_fault_is_the_end(m: Flash, reply: Seq<u8>, later: Seq<Seq<u8>>)
    requires
        fault(m, reply) is Some,
    ensures
        ({
            let r = m.resume(reply);
            &&& r.jtag == m.jtag.end_read() || r.jtag == m.jtag.end_read().clks(jtag::idle(8))
            &&& flash_after(r, later) == r
        }),
    decreases later.len(),
{
    if later.len() > 0 {
        law_fault_is_the_end(m, reply, later.drop_last());
    }
}

/// A session waits for the end of the erasure first.
proof fn lemma_waits_first(bus: Seq<Act>, erase_only: bool, jed: Jed)
    ensures
        flash::begun(bus, erase_only, jed).stage == (FlashStage::Busy { of: Wait::Erase }),
{
}

/// The session was in `stage` at some time.
pub open spec fn reached(m: Flash, replies: Seq<Seq<u8>>, stage: FlashStage) -> bool {
    exists|i: int| #[trigger] is_stage(m, replies, i, stage)
}

/// The session was in `stage` after `i` replies.
pub open spec fn is_stage(m: Flash, replies: Seq<Seq<u8>>, i: int, stage: FlashStage) -> bool {
    0 <= i <= replies.len() && flash_after(m, replies.take(i)).stage == stage
}

/// How many rows were programmed when a session is in a stage.
spec fn rows_programmed(stage: FlashStage, rows: int) -> int {
    match stage {
        FlashStage::Busy { of: Wait::Erase } => 0,
        FlashStage::Status { of: Wait::Erase } => 0,
        FlashStage::Busy { of: Wait::Row { row } } => row + 1,
        FlashStage::Status { of: Wait::Row { row } } => row + 1,
        FlashStage::Failed { error } => 0,
        _ => rows,
    }
}

/// One reply leads to the programming of at most one more row, the next one.
proof fn lemma_flash_row_step(p: Flash, reply: Seq<u8>)
    requires
        !p.erase_only,
        p.jed.config.len() <= usize::MAX,
        rows_programmed(p.stage, p.rows()) <= p.rows(),
    ensures
        ({
            let r = p.resume(reply);
            &&& r.jed == p.jed
            &&& !r.erase_only
            &&& rows_programmed(r.stage, p.rows()) <= p.rows()
            &&& forall|row: int|
                rows_programmed(p.stage, p.rows()) <= row < rows_programmed(r.stage, p.rows())
                    ==> r.stage == #[trigger] row_stage(row)
        }),
{
}

/// The stage in which a row has just been programmed.
pub open spec fn row_stage(row: int) -> FlashStage {
    FlashStage::Busy { of: Wait::Row { row: row as usize } }
}

proof fn lemma_flash_rows(bus: Seq<Act>, jed: Jed, replies: Seq<Seq<u8>>)
    requires
        jed.config.len() <= usize::MAX,
    ensures
        ({
            let m = flash::begun(bus, false, jed);
            let r = flash_after(m, replies);
            &&& r.jed == jed
            &&& !r.erase_only
            &&& rows_programmed(r.stage, m.rows()) <= m.rows()
            &&& forall|row: int|
                0 <= row < rows_programmed(r.stage, m.rows()) ==> reached(
                    m,
                    replies,
                    #[trigger] row_stage(row),
                )
        }),
    decreases replies.len(),
{
    let m = flash::begun(bus, false, jed);
    let r = flash_after(m, replies);
    if replies.len() == 0 {
        lemma_flash_begun(bus, jed);
    } else {
        let before = replies.drop_last();
        let p = flash_after(m, before);
        lemma_flash_begun(bus, jed);
        lemma_flash_rows(bus, jed, before);
        lemma_flash_row_step(p, replies.last());
        assert forall|row: int| 0 <= row < rows_programmed(r.stage, m.rows()) implies reached(
            m,
            replies,
            #[trigger] row_stage(row),
        ) by {
            if row < rows_programmed(p.stage, m.rows()) {
                let i = choose|i: int| #[trigger] is_stage(m, before, i, row_stage(row));
                assert(before.take(i) =~= replies.take(i));
                assert(is_stage(m, replies, i, row_stage(row)));
            } else {
                assert(replies.take(replies.len() as int) =~= replies);
                assert(is_stage(m, replies, replies.len() as int, row_stage(row)));
            }
        }
    }
}

/// Programming the flash memory is done only when every row of the configuration was programmed.
pub proof fn law_flash_programmed(bus: Seq<Act>, jed: Jed, replies: Seq<Seq<u8>>, row: int)
    requires
        jed.config.len() <= usize::MAX,
        flash_after(flash::begun(bus, false, jed), replies).stage == FlashStage::Finished,
        0 <= row < flash::begun(bus, false, jed).rows(),
    ensures
        reached(flash::begun(bus, false, jed), replies, row_stage(row)),
{
    lemma_flash_rows(bus, jed, replies);
}

} // verus!
