//! Access to the FPGA: how it is found, and how a configuration is loaded into it.

use vstd::prelude::*;

use crate::fpga;
use crate::jtag;
use crate::jtag::Jtag;
use crate::laws::device;
use crate::laws::device::{Script, Word};
use crate::laws::session;
use crate::laws::tap::Tap;
use crate::usb;
use crate::usb::Act;

verus! {

broadcast use {
    device::law_order_heard,
    device::law_data_heard,
    device::law_pause_heard,
    device::law_sync_unheard,
    device::law_read_asks,
    device::law_read_ends,
};

/// Clocks wait until there are 255 of them, or until they are asked for, and are then sent in one
/// request.
pub proof fn law_clocks_wait(j: Jtag, c: u8)
    requires
        j.pending.len() < 255,
    ensures
        ({
            let r = j.clk(c);
            if j.pending.len() == 254 {
                &&& r.pending.len() == 0
                &&& r.bus.len() == j.bus.len() + 1
                &&& r.bus.drop_last() == j.bus
                &&& r.bus.last() matches Act::ControlOut { request, value, index, data } && request
                    == 0xc1 && value == 255 && index == 0 && data.len() == 64
            } else {
                &&& r.pending == j.pending.push(c)
                &&& r.bus == j.bus
            }
        }),
{
    assert(j.bus.push(usb::jtag_out(j.pending.push(c))).drop_last() =~= j.bus);
}

/// Access begins with JTAG on and a reset, whatever the port was doing, and the device is asked for
/// the identification of its type.
pub proof fn law_enable_told(bus: Seq<Act>, port: Tap)
    ensures
        ({
            let r = fpga::enable_begun(bus);
            let on = r.bus[bus.len() as int];
            &&& bus.is_prefix_of(r.bus)
            &&& bus.len() < r.bus.len()
            &&& on matches Act::ControlOut { request, value, index, data } && request == 0xc0
                && value == 1 && index == 0 && data.len() == 0
            &&& device::asks(port, r, 32)
            &&& device::hears(port, r).len() > 0
            &&& device::hears(port, r).last() == device::order(0xe0)
        }),
{
    let on = usb::control_out(usb::CMD_JTAG_ENABLE, 1, Seq::empty());
    let a = fpga::fresh(bus).act(on);
    device::law_reset_rests(port, a);
    let b = a.clks(jtag::reset_clocks());
    let c = b.sync().clks(jtag::ir_clocks(0xe0));
    assert(fpga::enable_begun(bus) == c.read_dr(32));
    assert(device::at_rest(port, b));
    assert(device::at_rest(port, b.sync()));
    assert(device::at_rest(port, c));
    assert(device::hears(port, c) == device::hears(port, b.sync()).push(device::order(0xe0)));
    let d = c.clks(seq![1u8, 0, 0]);
    let e = d.sync().clks(jtag::sample_clocks(32));
    let r = fpga::enable_begun(bus);
    lemma_bus_grows(a, jtag::reset_clocks());
    lemma_bus_grows(b.sync(), jtag::ir_clocks(0xe0));
    lemma_bus_grows(c, seq![1u8, 0, 0]);
    lemma_bus_grows(d.sync(), jtag::sample_clocks(32));
    lemma_prefix(a.bus, b.bus, b.sync().bus);
    lemma_prefix(a.bus, b.sync().bus, c.bus);
    lemma_prefix(a.bus, c.bus, d.bus);
    lemma_prefix(a.bus, d.bus, d.sync().bus);
    lemma_prefix(a.bus, d.sync().bus, e.bus);
    lemma_prefix(a.bus, e.bus, e.sync().bus);
    lemma_prefix(a.bus, e.sync().bus, r.bus);
    lemma_prefix(bus, a.bus, r.bus);
    assert(a.bus[bus.len() as int] == on);
}

proof fn lemma_prefix(a: Seq<Act>, b: Seq<Act>, c: Seq<Act>)
    requires
        a.is_prefix_of(b),
        b.is_prefix_of(c),
    ensures
        a.is_prefix_of(c),
{
    assert(c.subrange(0, a.len() as int) =~= c.subrange(0, b.len() as int).subrange(
        0,
        a.len() as int,
    ));
}

/// Clocks only add to what is done with the device.
proof fn lemma_bus_grows(j: Jtag, s: Seq<u8>)
    ensures
        j.bus.is_prefix_of(j.clks(s).bus),
    decreases s.len(),
{
    if s.len() > 0 {
        lemma_bus_grows(j, s.drop_last());
    }
}

/// After the identification was read, the port is at rest, and every clock is sent.
pub proof fn law_enable_ends(j: Jtag, port: Tap)
    requires
        device::asks(port, j, 32),
    ensures
        ({
            let r = j.end_read().sync();
            &&& device::at_rest(port, r)
            &&& r.pending.len() == 0
            &&& device::script(port, r) == device::script(port, j).zeros(32)
        }),
{
}

/// The device is asked for its own identification.
pub proof fn law_traceid_told(j: Jtag, port: Tap)
    requires
        device::at_rest(port, j),
    ensures
        ({
            let r = j.clks(jtag::ir_clocks(fpga::UIDCODE_PUB)).read_dr(64);
            &&& device::asks(port, r, 64)
            &&& device::script(port, r) == device::script(port, j).order(0x19)
        }),
{
}

/// A configuration is loaded: the SRAM is erased, the device gets the bits of the file and time to
/// use them, and leaves the configuration mode. Every clock is sent.
pub proof fn law_configuration_told(j: Jtag, bytes: Seq<u8>, port: Tap)
    requires
        device::at_rest(port, j),
        bytes.len() > 0,
    ensures
        ({
            let r = fpga::sram_programmed(j, bytes);
            let before = device::script(port, j).order(0xc6).data(seq![0x00u8]).pause(8).order(
                0x0e,
            ).data(seq![0x01u8]).pause(8).order(0x7a).pause(8);
            let loaded = Script {
                words: before.words.push(Word::Data { bits: device::high_bits_first(bytes) }),
            };
            &&& device::at_rest(port, r)
            &&& r.pending.len() == 0
            &&& device::script(port, r) == loaded.pause(100).order(0x26).pause(8).order(0xff).pause(
                100,
            )
        }),
{
    let a = j.clks(jtag::ir_clocks(0xc6)).clks(jtag::dr_clocks(seq![0x00u8], 8)).clks(
        jtag::idle(8),
    ).clks(jtag::ir_clocks(0x0e)).clks(jtag::dr_clocks(seq![0x01u8], 8)).clks(jtag::idle(8)).clks(
        jtag::ir_clocks(0x7a),
    ).clks(jtag::idle(8));
    assert(device::at_rest(port, a));
    device::law_bitstream_heard(port, a, bytes);
}

/// The number that a reply stands for, from byte `i` on: four bits to a byte, the lowest first.
pub open spec fn nibbles(reply: Seq<u8>, i: int, n: int) -> int
    decreases n - i,
{
    if i >= n {
        0
    } else {
        session::reply_byte(reply, i) % 16 + 16 * nibbles(reply, i + 1, n)
    }
}

proof fn lemma_value(reply: Seq<u8>, count: int, k: int)
    requires
        0 <= k <= count,
    ensures
        fpga::le_value(usb::unpack_samples(reply, 8 * count).skip(k)) == nibbles(
            reply,
            2 * k,
            2 * count,
        ),
    decreases count - k,
{
    let all = usb::unpack_samples(reply, 8 * count);
    let rest = all.skip(k);
    if k < count {
        lemma_value(reply, count, k + 1);
        assert(rest.drop_first() =~= all.skip(k + 1));
        let low = usb::byte_at(reply, 2 * k);
        let high = usb::byte_at(reply, 2 * k + 1);
        assert(rest[0] == all[k]);
        assert(all[k] == (low & 0x0f) | ((high & 0x0f) << 4));
        assert(((low & 0x0f) | ((high & 0x0f) << 4)) == low % 16 + 16 * (high % 16))
            by (bit_vector);
        assert(nibbles(reply, 2 * k, 2 * count) == low as int % 16 + 16 * nibbles(
            reply,
            2 * k + 1,
            2 * count,
        ));
    } else {
        assert(rest =~= Seq::empty());
    }
}

/// An identification is the number that its reply stands for.
pub proof fn law_identification(reply: Seq<u8>, count: int)
    requires
        0 <= count,
    ensures
        fpga::le_value(usb::unpack_samples(reply, 8 * count)) == nibbles(reply, 0, 2 * count),
{
    lemma_value(reply, count, 0);
    assert(usb::unpack_samples(reply, 8 * count).skip(0) =~= usb::unpack_samples(
        reply,
        8 * count,
    ));
}

/// The one type of device that is accepted is the LCMXO2-2000HC.
pub proof fn law_idcode(reply: Seq<u8>)
    ensures
        fpga::le_value(usb::unpack_samples(reply, 32)) == fpga::LCMXO2_2000HC_IDCODE <==> nibbles(
            reply,
            0,
            8,
        ) == 0x012b_b043,
{
    law_identification(reply, 4);
}

/// Access ends with a reset, whatever the port was doing, with every clock sent, and with JTAG off.
pub proof fn law_disable_told(bus: Seq<Act>, port: Tap)
    ensures
        ({
            let r = fpga::fresh(bus).clks(jtag::reset_clocks()).sync();
            let off = usb::control_out(usb::CMD_JTAG_ENABLE, 0, Seq::empty());
            &&& device::at_rest(port, r)
            &&& r.pending.len() == 0
            &&& off matches Act::ControlOut { request, value, index, data } && request == 0xc0
                && value == 0 && index == 0 && data.len() == 0
        }),
{
    device::law_reset_rests(port, fpga::fresh(bus));
}

} // verus!
