//! What reaches the hardware.

use vstd::prelude::*;

use crate::jtag;
use crate::jtag::Jtag;
use crate::usb;
use crate::usb::{Act, CMD_JTAG_REQUEST, MAX_COUNT_IN_JTAG_REQUEST, USB_EP0_SIZE};

verus! {

/// The generator of the test pattern never gives zero, so it is seeded only once.
pub proof fn law_rand16_not_zero(state: u16)
    ensures
        usb::rand16_next(state) != 0,
{
    let s = if state == 0 {
        0x6c41u16
    } else {
        state
    };
    assert(s != 0 ==> ({
        let a = s ^ (s << 7);
        let b = a ^ (a >> 9);
        b ^ (b << 8)
    }) != 0) by (bit_vector);
}

/// Different states of the generator have different successors.
pub proof fn law_rand16_injective(s: u16, t: u16)
    requires
        s != 0,
        t != 0,
        usb::rand16_next(s) == usb::rand16_next(t),
    ensures
        s == t,
{
    assert(({
        let a = s ^ (s << 7);
        let b = a ^ (a >> 9);
        b ^ (b << 8)
    }) == ({
        let c = t ^ (t << 7);
        let d = c ^ (c >> 9);
        d ^ (d << 8)
    }) ==> s == t) by (bit_vector);
}

/// Four clocks in a byte can be told apart.
proof fn lemma_pack4(a: u8, b: u8, c: u8, d: u8)
    requires
        a < 4,
        b < 4,
        c < 4,
        d < 4,
    ensures
        usb::pack4(a, b, c, d) & 3 == a,
        (usb::pack4(a, b, c, d) >> 2) & 3 == b,
        (usb::pack4(a, b, c, d) >> 4) & 3 == c,
        (usb::pack4(a, b, c, d) >> 6) & 3 == d,
{
    let p = a | (b << 2) | (c << 4) | (d << 6);
    assert(a < 4 && b < 4 && c < 4 && d < 4 && p == a | (b << 2) | (c << 4) | (d << 6) ==> p & 3
        == a && (p >> 2) & 3 == b && (p >> 4) & 3 == c && (p >> 6) & 3 == d) by (bit_vector);
}

/// Two levels at each clock.
pub open spec fn levels(clocks: Seq<u8>) -> bool {
    forall|i: int| 0 <= i < clocks.len() ==> #[trigger] clocks[i] < 4
}

/// Each clock of a JTAG request can be read back from it.
pub proof fn law_clocks_read_back(clocks: Seq<u8>, i: int)
    requires
        levels(clocks),
        0 <= i < clocks.len(),
    ensures
        usb::packed_clock(usb::pack_clocks(clocks), i) == clocks[i],
{
    let k = i / 4;
    assert(0 <= k < usb::pack_clocks(clocks).len());
    lemma_pack4(
        usb::byte_at(clocks, 4 * k),
        usb::byte_at(clocks, 4 * k + 1),
        usb::byte_at(clocks, 4 * k + 2),
        usb::byte_at(clocks, 4 * k + 3),
    );
}

/// A request of as many clocks as are allowed fits in a packet.
pub proof fn law_request_size(clocks: Seq<u8>)
    requires
        clocks.len() <= MAX_COUNT_IN_JTAG_REQUEST,
    ensures
        usb::pack_clocks(clocks).len() <= USB_EP0_SIZE,
{
}

/// The clocks that a device gets.
pub open spec fn clocks_of(act: Act) -> Seq<u8> {
    match act {
        Act::ControlOut { request, value, index, data } => if request == CMD_JTAG_REQUEST {
            Seq::new(value as nat, |i: int| usb::packed_clock(data, i))
        } else {
            Seq::empty()
        },
        _ => Seq::empty(),
    }
}

/// All clocks that a device gets, in order.
pub open spec fn sent(bus: Seq<Act>) -> Seq<u8>
    decreases bus.len(),
{
    if bus.len() == 0 {
        Seq::empty()
    } else {
        sent(bus.drop_last()) + clocks_of(bus.last())
    }
}

/// All clocks, those that wait to be sent included.
pub open spec fn all_clocks(j: Jtag) -> Seq<u8> {
    sent(j.bus) + j.pending
}

proof fn lemma_request(bus: Seq<Act>, clocks: Seq<u8>)
    requires
        levels(clocks),
        clocks.len() <= MAX_COUNT_IN_JTAG_REQUEST,
    ensures
        sent(bus.push(usb::jtag_out(clocks))) == sent(bus) + clocks,
{
    let act = usb::jtag_out(clocks);
    assert(bus.push(act).drop_last() =~= bus);
    assert forall|i: int| 0 <= i < clocks.len() implies clocks_of(act)[i] == clocks[i] by {
        law_clocks_read_back(clocks, i);
    }
    assert(clocks_of(act) =~= clocks);
}

/// Clocks and then others are all of them: where a sequence is cut does not matter.
pub proof fn law_clocks_join(j: Jtag, s: Seq<u8>, t: Seq<u8>)
    ensures
        j.clks(s).clks(t) == j.clks(s + t),
    decreases t.len(),
{
    if t.len() == 0 {
        assert(s + t =~= s);
    } else {
        law_clocks_join(j, s, t.drop_last());
        assert((s + t).drop_last() =~= s + t.drop_last());
    }
}

/// The clocks reach the device in order, and none is lost or added.
pub proof fn law_clocks_in_order(j: Jtag, s: Seq<u8>)
    requires
        j.pending.len() < MAX_COUNT_IN_JTAG_REQUEST,
        levels(j.pending),
        levels(s),
    ensures
        all_clocks(j.clks(s)) == all_clocks(j) + s,
        j.clks(s).pending.len() < MAX_COUNT_IN_JTAG_REQUEST,
        levels(j.clks(s).pending),
    decreases s.len(),
{
    if s.len() == 0 {
        assert(all_clocks(j) + s =~= all_clocks(j));
    } else {
        let n = j.clks(s.drop_last());
        law_clocks_in_order(j, s.drop_last());
        assert(s[s.len() - 1] < 4);
        let pending = n.pending.push(s.last());
        assert(levels(pending));
        if pending.len() == MAX_COUNT_IN_JTAG_REQUEST {
            lemma_request(n.bus, pending);
        }
        assert(all_clocks(n.clk(s.last())) =~= all_clocks(n).push(s.last()));
        assert(all_clocks(j) + s =~= (all_clocks(j) + s.drop_last()).push(s.last()));
    }
}

/// After a `sync` every clock has been sent.
pub proof fn law_sync_sends_all(j: Jtag)
    requires
        j.pending.len() < MAX_COUNT_IN_JTAG_REQUEST,
        levels(j.pending),
    ensures
        sent(j.sync().bus) == all_clocks(j),
        j.sync().pending.len() == 0,
{
    if j.pending.len() > 0 {
        lemma_request(j.bus, j.pending);
    } else {
        assert(all_clocks(j) =~= sent(j.bus));
    }
}

/// Sample `i` in the bytes that are made of a reply: the device sends four samples in the low
/// half of each byte.
pub proof fn law_samples(reply: Seq<u8>, count: int, i: int)
    requires
        0 <= i < count,
    ensures
        jtag::bit(usb::unpack_samples(reply, count)[i / 8], i % 8) == jtag::bit(
            usb::byte_at(reply, i / 4),
            i % 4,
        ),
{
    let k = i / 8;
    let low = usb::byte_at(reply, 2 * k);
    let high = usb::byte_at(reply, 2 * k + 1);
    let b = (low & 0x0f) | ((high & 0x0f) << 4);
    assert(usb::unpack_samples(reply, count)[k] == b);
    let n = (i % 8) as u8;
    let m = (i % 4) as u8;
    if i % 8 < 4 {
        assert(i / 4 == 2 * k && n == m);
        assert(b == (low & 0x0f) | ((high & 0x0f) << 4) && n < 4 ==> (b >> n) & 1 == (low >> n) & 1)
            by (bit_vector);
    } else {
        assert(i / 4 == 2 * k + 1 && n == m + 4);
        assert(b == (low & 0x0f) | ((high & 0x0f) << 4) && m < 4 && n == m + 4 ==> (b >> n) & 1 == (
        high >> m) & 1) by (bit_vector);
    }
}

} // verus!
