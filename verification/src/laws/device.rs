//! What the FPGA hears, clock by clock, and what it makes of it.

use vstd::prelude::*;

use crate::jtag;
use crate::jtag::Jtag;
use crate::laws::hardware;
use crate::laws::tap;
use crate::laws::tap::{Tap, TapState};
use crate::usb;
use crate::usb::Act;

verus! {

/// Bit `i` of a number, the lowest one first.
pub open spec fn digit(n: int, i: int) -> u8 {
    (if i == 0 {
        n % 2
    } else if i == 1 {
        n / 2 % 2
    } else if i == 2 {
        n / 4 % 2
    } else if i == 3 {
        n / 8 % 2
    } else if i == 4 {
        n / 16 % 2
    } else if i == 5 {
        n / 32 % 2
    } else if i == 6 {
        n / 64 % 2
    } else {
        n / 128 % 2
    }) as u8
}

/// The bits of some bytes, the lowest one of each byte first.
pub open spec fn bits_of(bytes: Seq<u8>) -> Seq<u8> {
    Seq::new(8 * bytes.len(), |i: int| digit(bytes[i / 8] as int, i % 8))
}

/// The bits of some bytes, the highest one of each byte first.
pub open spec fn high_bits_first(bytes: Seq<u8>) -> Seq<u8> {
    Seq::new(8 * bytes.len(), |i: int| digit(bytes[i / 8] as int, 7 - i % 8))
}

/// What a device hears.
pub enum Word {
    /// An instruction.
    Instruction { bits: Seq<u8> },
    /// Data for the instruction before.
    Data { bits: Seq<u8> },
    /// A clock in Run-Test/Idle.
    Tick,
}

/// An instruction.
pub open spec fn order(code: u8) -> Word {
    Word::Instruction { bits: bits_of(seq![code]) }
}

/// Data.
pub open spec fn data(bytes: Seq<u8>) -> Word {
    Word::Data { bits: bits_of(bytes) }
}

/// Zeros that are shifted in while data is shifted out.
pub open spec fn zeros(n: nat) -> Word {
    Word::Data { bits: Seq::new(n, |i: int| 0u8) }
}

/// Clocks in Run-Test/Idle.
pub open spec fn pause(n: nat) -> Seq<Word> {
    Seq::new(n, |i: int| Word::Tick)
}

/// What a device hears at one clock.
pub open spec fn word(port: Tap, clock: u8) -> Seq<Word> {
    match (port.state, tap::step(port, clock).state) {
        (_, TapState::UpdateIr) => seq![Word::Instruction { bits: port.ir }],
        (_, TapState::UpdateDr) => seq![Word::Data { bits: port.dr }],
        (TapState::RunTestIdle, TapState::RunTestIdle) => seq![Word::Tick],
        _ => Seq::empty(),
    }
}

/// What a device hears during some clocks.
pub open spec fn heard(port: Tap, clocks: Seq<u8>) -> Seq<Word>
    decreases clocks.len(),
{
    if clocks.len() == 0 {
        Seq::empty()
    } else {
        heard(port, clocks.drop_last()) + word(
            tap::run(port, clocks.drop_last()),
            clocks.last(),
        )
    }
}

/// Clock `i` of a request with four clocks in each byte, the first one lowest.
pub open spec fn clock_at(bytes: Seq<u8>, i: int) -> int {
    let b = bytes[i / 4] as int;
    if i % 4 == 0 {
        b % 4
    } else if i % 4 == 1 {
        b / 4 % 4
    } else if i % 4 == 2 {
        b / 16 % 4
    } else {
        b / 64
    }
}

/// The clocks that an action gives to the device.
pub open spec fn clocks_of(act: Act) -> Seq<u8> {
    match act {
        Act::ControlOut { request, value, index, data } => if request == 0xc1 {
            Seq::new(value as nat, |i: int| clock_at(data, i) as u8)
        } else {
            Seq::empty()
        },
        _ => Seq::empty(),
    }
}

/// All clocks that the actions give to the device, in order.
pub open spec fn wire(bus: Seq<Act>) -> Seq<u8>
    decreases bus.len(),
{
    if bus.len() == 0 {
        Seq::empty()
    } else {
        wire(bus.drop_last()) + clocks_of(bus.last())
    }
}

/// The port after all clocks, those that wait to be sent included.
pub open spec fn port_after(port: Tap, j: Jtag) -> Tap {
    tap::run(port, wire(j.bus) + j.pending)
}

/// What the device hears of all clocks, those that wait to be sent included.
pub open spec fn hears(port: Tap, j: Jtag) -> Seq<Word> {
    heard(port, wire(j.bus) + j.pending)
}

/// Two operations meet here: the port is in Run-Test/Idle.
pub open spec fn at_rest(port: Tap, j: Jtag) -> bool {
    &&& j.pending.len() < 255
    &&& hardware::levels(j.pending)
    &&& port_after(port, j).state is RunTestIdle
}

/// `n` bits were shifted out of the data register and asked for: all clocks are sent, and the
/// device has still to be led back to Run-Test/Idle.
pub open spec fn asks(port: Tap, j: Jtag, n: nat) -> bool {
    &&& j.pending.len() == 0
    &&& port_after(port, j).state is Exit1Dr
    &&& port_after(port, j).dr == Seq::new(n, |i: int| 0u8)
    &&& j.bus.len() > 0
    &&& j.bus.last() matches Act::ControlIn { request, value, index, length } && request == 0xc2
        && value == 0 && index == 0 && length == (n + 3) / 4
}

proof fn lemma_digit(b: u8, i: int)
    requires
        0 <= i < 8,
    ensures
        jtag::bit(b, i) == digit(b as int, i),
        jtag::bit(b, i) <= 1,
{
    let n = i as u8;
    assert(n < 8 ==> (b >> n) & 1 <= 1 && (b >> n) & 1 == (if n == 0 {
        b % 2
    } else if n == 1 {
        b / 2 % 2
    } else if n == 2 {
        b / 4 % 2
    } else if n == 3 {
        b / 8 % 2
    } else if n == 4 {
        b / 16 % 2
    } else if n == 5 {
        b / 32 % 2
    } else if n == 6 {
        b / 64 % 2
    } else {
        b / 128 % 2
    })) by (bit_vector);
}

proof fn lemma_clocks_of(act: Act)
    ensures
        clocks_of(act) == hardware::clocks_of(act),
{
    if let Act::ControlOut { request, value, index, data } = act {
        assert forall|i: int| clock_at(data, i) as u8 == usb::packed_clock(data, i) by {
            let b = data[i / 4];
            assert(b & 3 == b % 4 && (b >> 2) & 3 == b / 4 % 4 && (b >> 4) & 3 == b / 16 % 4 && (b
                >> 6) & 3 == b / 64) by (bit_vector);
        }
        assert(clocks_of(act) =~= hardware::clocks_of(act));
    }
}

proof fn lemma_wire(bus: Seq<Act>)
    ensures
        wire(bus) == hardware::sent(bus),
    decreases bus.len(),
{
    if bus.len() > 0 {
        lemma_wire(bus.drop_last());
        lemma_clocks_of(bus.last());
    }
}

proof fn lemma_heard_add(port: Tap, s: Seq<u8>, t: Seq<u8>)
    ensures
        heard(port, s + t) == heard(port, s) + heard(tap::run(port, s), t),
    decreases t.len(),
{
    if t.len() == 0 {
        assert(s + t =~= s);
        assert(heard(port, s) + Seq::<Word>::empty() =~= heard(port, s));
    } else {
        lemma_heard_add(port, s, t.drop_last());
        assert((s + t).drop_last() =~= s + t.drop_last());
        tap::lemma_run_add(port, s, t.drop_last());
        assert(heard(port, s + t) =~= heard(port, s) + heard(tap::run(port, s), t));
    }
}

/// More clocks, all of them legal.
proof fn lemma_more(port: Tap, j: Jtag, s: Seq<u8>)
    requires
        j.pending.len() < 255,
        hardware::levels(j.pending),
        hardware::levels(s),
    ensures
        j.clks(s).pending.len() < 255,
        hardware::levels(j.clks(s).pending),
        port_after(port, j.clks(s)) == tap::run(port_after(port, j), s),
        hears(port, j.clks(s)) == hears(port, j) + heard(port_after(port, j), s),
{
    let k = j.clks(s);
    hardware::law_clocks_in_order(j, s);
    lemma_wire(j.bus);
    lemma_wire(k.bus);
    tap::lemma_run_add(port, wire(j.bus) + j.pending, s);
    lemma_heard_add(port, wire(j.bus) + j.pending, s);
}

/// Clocks that wait are sent.
proof fn lemma_sync(port: Tap, j: Jtag)
    requires
        j.pending.len() < 255,
        hardware::levels(j.pending),
    ensures
        j.sync().pending.len() == 0,
        hardware::levels(j.sync().pending),
        port_after(port, j.sync()) == port_after(port, j),
        hears(port, j.sync()) == hears(port, j),
{
    hardware::law_sync_sends_all(j);
    lemma_wire(j.bus);
    lemma_wire(j.sync().bus);
    assert(wire(j.sync().bus) + j.sync().pending =~= wire(j.bus) + j.pending);
}

/// Nothing is heard while bits are shifted.
proof fn lemma_shift_unheard(port: Tap, clocks: Seq<u8>, n: int)
    requires
        port.state is ShiftDr || port.state is ShiftIr,
        0 <= n <= clocks.len(),
        forall|i: int| 0 <= i < clocks.len() - 1 ==> #[trigger] clocks[i] % 2 == 0,
    ensures
        heard(port, clocks.take(n)) == Seq::<Word>::empty(),
        n < clocks.len() ==> tap::run(port, clocks.take(n)).state == port.state,
    decreases n,
{
    if n > 0 {
        lemma_shift_unheard(port, clocks, n - 1);
        assert(clocks.take(n).drop_last() =~= clocks.take(n - 1));
        let p = tap::run(port, clocks.take(n - 1));
        assert(clocks.take(n).last() == clocks[n - 1]);
        assert(word(p, clocks[n - 1]) =~= Seq::<Word>::empty());
        assert(heard(port, clocks.take(n)) =~= Seq::<Word>::empty());
    }
}

proof fn lemma_step_one(port: Tap, c: u8)
    ensures
        tap::run(port, seq![c]) == tap::step(port, c),
        heard(port, seq![c]) == word(port, c),
{
    assert(seq![c].drop_last() =~= Seq::empty());
    assert(tap::run(port, Seq::empty()) == port);
    assert(heard(port, Seq::empty()) == Seq::<Word>::empty());
    assert(heard(port, seq![c]) =~= word(port, c));
}

/// From Run-Test/Idle to Shift-DR.
proof fn lemma_to_shift_dr(port: Tap)
    requires
        port.state is RunTestIdle,
    ensures
        heard(port, seq![1u8, 0, 0]) == Seq::<Word>::empty(),
        tap::run(port, seq![1u8, 0, 0]).state is ShiftDr,
        tap::run(port, seq![1u8, 0, 0]).dr == Seq::<u8>::empty(),
{
    let a = tap::step(port, 1);
    let b = tap::step(a, 0);
    lemma_step_one(port, 1);
    lemma_step_one(a, 0);
    lemma_step_one(b, 0);
    assert(seq![1u8] + seq![0u8] =~= seq![1u8, 0]);
    assert(seq![1u8, 0] + seq![0u8] =~= seq![1u8, 0, 0]);
    tap::lemma_run_add(port, seq![1u8], seq![0u8]);
    tap::lemma_run_add(port, seq![1u8, 0], seq![0u8]);
    lemma_heard_add(port, seq![1u8], seq![0u8]);
    lemma_heard_add(port, seq![1u8, 0], seq![0u8]);
    assert(heard(port, seq![1u8, 0, 0]) =~= Seq::<Word>::empty());
}

/// From Run-Test/Idle to Shift-IR.
proof fn lemma_to_shift_ir(port: Tap)
    requires
        port.state is RunTestIdle,
    ensures
        heard(port, seq![1u8, 1, 0, 0]) == Seq::<Word>::empty(),
        tap::run(port, seq![1u8, 1, 0, 0]).state is ShiftIr,
        tap::run(port, seq![1u8, 1, 0, 0]).ir == Seq::<u8>::empty(),
{
    let a = tap::step(port, 1);
    let b = tap::step(a, 1);
    let c = tap::step(b, 0);
    lemma_step_one(port, 1);
    lemma_step_one(a, 1);
    lemma_step_one(b, 0);
    lemma_step_one(c, 0);
    assert(seq![1u8] + seq![1u8] =~= seq![1u8, 1]);
    assert(seq![1u8, 1] + seq![0u8] =~= seq![1u8, 1, 0]);
    assert(seq![1u8, 1, 0] + seq![0u8] =~= seq![1u8, 1, 0, 0]);
    tap::lemma_run_add(port, seq![1u8], seq![1u8]);
    tap::lemma_run_add(port, seq![1u8, 1], seq![0u8]);
    tap::lemma_run_add(port, seq![1u8, 1, 0], seq![0u8]);
    lemma_heard_add(port, seq![1u8], seq![1u8]);
    lemma_heard_add(port, seq![1u8, 1], seq![0u8]);
    lemma_heard_add(port, seq![1u8, 1, 0], seq![0u8]);
    assert(heard(port, seq![1u8, 1, 0, 0]) =~= Seq::<Word>::empty());
}

/// From Exit1-DR or Exit1-IR back to Run-Test/Idle, through the update.
proof fn lemma_update(port: Tap)
    requires
        port.state is Exit1Dr || port.state is Exit1Ir,
    ensures
        tap::run(port, seq![1u8, 0]).state is RunTestIdle,
        port.state is Exit1Dr ==> heard(port, seq![1u8, 0]) == seq![
            Word::Data { bits: port.dr },
        ],
        port.state is Exit1Ir ==> heard(port, seq![1u8, 0]) == seq![
            Word::Instruction { bits: port.ir },
        ],
{
    let a = tap::step(port, 1);
    lemma_step_one(port, 1);
    lemma_step_one(a, 0);
    assert(seq![1u8] + seq![0u8] =~= seq![1u8, 0]);
    tap::lemma_run_add(port, seq![1u8], seq![0u8]);
    lemma_heard_add(port, seq![1u8], seq![0u8]);
    assert(heard(port, seq![1u8, 0]) =~= word(port, 1));
}

/// The clocks carry the bits, with TMS high at the last one.
spec fn shifts(clocks: Seq<u8>, bits: Seq<u8>) -> bool {
    &&& clocks.len() == bits.len()
    &&& forall|i: int|
        0 <= i < bits.len() ==> #[trigger] bits[i] <= 1 && clocks[i] == 2 * bits[i] + last(i, bits)
}

spec fn last(i: int, bits: Seq<u8>) -> int {
    if i == bits.len() - 1 {
        1
    } else {
        0
    }
}

/// In a shift state, bits go into the register until the last one.
proof fn lemma_shift(port: Tap, clocks: Seq<u8>, bits: Seq<u8>, n: int)
    requires
        port.state is ShiftDr || port.state is ShiftIr,
        0 <= n <= bits.len(),
        shifts(clocks, bits),
    ensures
        ({
            let r = tap::run(port, clocks.take(n));
            &&& port.state is ShiftDr ==> r.dr == port.dr + bits.take(n)
            &&& port.state is ShiftIr ==> r.ir == port.ir + bits.take(n)
            &&& n < bits.len() ==> r.state == port.state
            &&& n == bits.len() && n > 0 && port.state is ShiftDr ==> r.state is Exit1Dr
            &&& n == bits.len() && n > 0 && port.state is ShiftIr ==> r.state is Exit1Ir
        }),
    decreases n,
{
    if n == 0 {
        assert(port.dr + bits.take(0) =~= port.dr);
        assert(port.ir + bits.take(0) =~= port.ir);
    } else {
        lemma_shift(port, clocks, bits, n - 1);
        assert(clocks.take(n).drop_last() =~= clocks.take(n - 1));
        assert(clocks.take(n).last() == clocks[n - 1]);
        assert(port.dr + bits.take(n) =~= (port.dr + bits.take(n - 1)).push(bits[n - 1]));
        assert(port.ir + bits.take(n) =~= (port.ir + bits.take(n - 1)).push(bits[n - 1]));
    }
}

/// A register takes bits on the way through its shift state: from `head`, which leads there.
proof fn lemma_register(port: Tap, head: Seq<u8>, clocks: Seq<u8>, bits: Seq<u8>)
    requires
        heard(port, head) == Seq::<Word>::empty(),
        ({
            let p = tap::run(port, head);
            ||| p.state is ShiftDr && p.dr == Seq::<u8>::empty()
            ||| p.state is ShiftIr && p.ir == Seq::<u8>::empty()
        }),
        bits.len() > 0,
        shifts(clocks, bits),
    ensures
        ({
            let ir = tap::run(port, head).state is ShiftIr;
            let all = head + clocks;
            &&& tap::run(port, all).state == (if ir {
                TapState::Exit1Ir
            } else {
                TapState::Exit1Dr
            })
            &&& heard(port, all) == Seq::<Word>::empty()
            &&& !ir ==> tap::run(port, all).dr == bits
            &&& tap::run(port, all + seq![1u8, 0]).state is RunTestIdle
            &&& heard(port, all + seq![1u8, 0]) == seq![
                if ir {
                    Word::Instruction { bits }
                } else {
                    Word::Data { bits }
                },
            ]
        }),
{
    let p = tap::run(port, head);
    let n = bits.len() as int;
    let all = head + clocks;
    lemma_shift(p, clocks, bits, n);
    assert(clocks.take(n) =~= clocks);
    assert(bits.take(n) =~= bits);
    assert(Seq::<u8>::empty() + bits =~= bits);
    tap::lemma_run_add(port, head, clocks);
    lemma_heard_add(port, head, clocks);
    assert forall|i: int| 0 <= i < clocks.len() - 1 implies #[trigger] clocks[i] % 2 == 0 by {
        assert(bits[i] <= 1);
    }
    lemma_shift_unheard(p, clocks, n);
    assert(heard(port, all) =~= Seq::<Word>::empty());
    let q = tap::run(port, all);
    tap::lemma_run_add(port, all, seq![1u8, 0]);
    lemma_heard_add(port, all, seq![1u8, 0]);
    lemma_update(q);
    assert(heard(port, all + seq![1u8, 0]) =~= heard(q, seq![1u8, 0]));
}

/// An instruction is heard as it is, and the port is at rest again.
pub broadcast proof fn law_order_heard(port: Tap, j: Jtag, code: u8)
    requires
        at_rest(port, j),
    ensures
        #![trigger at_rest(port, j.clks(jtag::ir_clocks(code)))]
        #![trigger hears(port, j.clks(jtag::ir_clocks(code)))]
        at_rest(port, j.clks(jtag::ir_clocks(code))),
        hears(port, j.clks(jtag::ir_clocks(code))) == hears(port, j).push(order(code)),
{
    let p = port_after(port, j);
    let bits = bits_of(seq![code]);
    let all = jtag::ir_clocks(code);
    let clocks = all.subrange(4, 12);
    assert forall|i: int| 0 <= i < 8 implies #[trigger] bits[i] <= 1 && clocks[i] == 2 * bits[i]
        + last(i, bits) by {
        lemma_digit(code, i);
        assert(clocks[i] == all[i + 4]);
        assert(bits[i] == digit(code as int, i));
    }
    assert(all =~= seq![1u8, 1, 0, 0] + clocks + seq![1u8, 0]);
    assert(hardware::levels(all)) by {
        assert forall|i: int| 0 <= i < all.len() implies #[trigger] all[i] < 4 by {
            if 4 <= i < 12 {
                assert(all[i] == clocks[i - 4]);
                assert(bits[i - 4] <= 1);
            }
        }
    }
    lemma_to_shift_ir(p);
    lemma_register(p, seq![1u8, 1, 0, 0], clocks, bits);
    lemma_more(port, j, all);
    assert(hears(port, j) + seq![order(code)] =~= hears(port, j).push(order(code)));
}

/// Data is heard as it is, and the port is at rest again.
pub broadcast proof fn law_data_heard(port: Tap, j: Jtag, bytes: Seq<u8>, size: nat)
    requires
        at_rest(port, j),
        bytes.len() > 0,
        size == 8 * bytes.len(),
    ensures
        #![trigger at_rest(port, j.clks(jtag::dr_clocks(bytes, size)))]
        #![trigger hears(port, j.clks(jtag::dr_clocks(bytes, size)))]
        at_rest(port, j.clks(jtag::dr_clocks(bytes, size))),
        hears(port, j.clks(jtag::dr_clocks(bytes, size))) == hears(port, j).push(data(bytes)),
{
    let p = port_after(port, j);
    let bits = bits_of(bytes);
    let all = jtag::dr_clocks(bytes, size);
    let clocks = all.subrange(3, 3 + size as int);
    assert forall|i: int| 0 <= i < size implies #[trigger] bits[i] <= 1 && clocks[i] == 2 * bits[i]
        + last(i, bits) by {
        lemma_digit(bytes[i / 8], i % 8);
        assert(clocks[i] == all[i + 3]);
        assert(bits[i] == digit(bytes[i / 8] as int, i % 8));
    }
    assert(all =~= seq![1u8, 0, 0] + clocks + seq![1u8, 0]);
    assert(hardware::levels(all)) by {
        assert forall|i: int| 0 <= i < all.len() implies #[trigger] all[i] < 4 by {
            if 3 <= i < 3 + size {
                assert(all[i] == clocks[i - 3]);
                assert(bits[i - 3] <= 1);
            }
        }
    }
    lemma_to_shift_dr(p);
    lemma_register(p, seq![1u8, 0, 0], clocks, bits);
    lemma_more(port, j, all);
    assert(hears(port, j) + seq![data(bytes)] =~= hears(port, j).push(data(bytes)));
}

proof fn lemma_ticks(port: Tap, n: nat)
    requires
        port.state is RunTestIdle,
    ensures
        heard(port, jtag::idle(n)) == pause(n),
    decreases n,
{
    if n == 0 {
        assert(pause(0) =~= Seq::empty());
    } else {
        let before = jtag::idle((n - 1) as nat);
        lemma_ticks(port, (n - 1) as nat);
        tap::law_idle(port, (n - 1) as nat);
        assert(jtag::idle(n).drop_last() =~= before);
        assert(heard(port, jtag::idle(n)) =~= pause(n));
    }
}

/// A pause is heard clock by clock.
pub broadcast proof fn law_pause_heard(port: Tap, j: Jtag, n: nat)
    requires
        at_rest(port, j),
    ensures
        #![trigger at_rest(port, j.clks(jtag::idle(n)))]
        #![trigger hears(port, j.clks(jtag::idle(n)))]
        at_rest(port, j.clks(jtag::idle(n))),
        hears(port, j.clks(jtag::idle(n))) == hears(port, j) + pause(n),
{
    let p = port_after(port, j);
    lemma_ticks(p, n);
    tap::law_idle(p, n);
    lemma_more(port, j, jtag::idle(n));
}

/// What does not go to the JTAG port is not heard.
pub broadcast proof fn law_message_unheard(port: Tap, j: Jtag, text: Seq<char>)
    ensures
        #![trigger at_rest(port, j.act((Act::Print { text })))]
        #![trigger hears(port, j.act((Act::Print { text })))]
        at_rest(port, j.act((Act::Print { text }))) == at_rest(port, j),
        hears(port, j.act((Act::Print { text }))) == hears(port, j),
{
    let k = j.act(Act::Print { text });
    assert(k.bus.drop_last() =~= j.bus);
    assert(wire(k.bus) =~= wire(j.bus));
}

/// Sending the clocks that wait changes nothing of what is heard.
pub broadcast proof fn law_sync_unheard(port: Tap, j: Jtag)
    requires
        at_rest(port, j),
    ensures
        #![trigger at_rest(port, j.sync())]
        #![trigger hears(port, j.sync())]
        at_rest(port, j.sync()),
        hears(port, j.sync()) == hears(port, j),
        j.sync().pending.len() == 0,
{
    lemma_sync(port, j);
}

/// Reading the data register shifts it out and asks for it, and nothing is heard yet.
pub broadcast proof fn law_read_asks(port: Tap, j: Jtag, n: nat)
    requires
        at_rest(port, j),
        0 < n <= 1000,
    ensures
        #![trigger asks(port, j.read_dr(n), n)]
        #![trigger hears(port, j.read_dr(n))]
        asks(port, j.read_dr(n), n),
        hears(port, j.read_dr(n)) == hears(port, j),
{
    let p = port_after(port, j);
    let head = seq![1u8, 0, 0];
    let sample = jtag::sample_clocks(n);
    let bits = Seq::new(n, |i: int| 0u8);
    lemma_to_shift_dr(p);
    assert(sample.len() == n);
    assert(hardware::levels(head));
    assert(hardware::levels(sample));
    lemma_more(port, j, head);
    let a = j.clks(head);
    lemma_sync(port, a);
    let b = a.sync();
    lemma_more(port, b, sample);
    let c = b.clks(sample);
    lemma_sync(port, c);
    let d = c.sync();
    let e = d.act(usb::jtag_in(n as int));
    assert(e.bus.drop_last() =~= d.bus);
    assert(wire(e.bus) =~= wire(d.bus));
    lemma_register(p, head, sample, bits);
    tap::lemma_run_add(p, head, sample);
    lemma_heard_add(p, head, sample);
    assert(hears(port, d) =~= hears(port, j));
}

/// After a read, the port is led back to rest; the device hears the zeros that were shifted in.
pub broadcast proof fn law_read_ends(port: Tap, j: Jtag, n: nat)
    requires
        #[trigger] asks(port, j, n),
    ensures
        #![trigger asks(port, j, n), at_rest(port, j.end_read())]
        #![trigger asks(port, j, n), hears(port, j.end_read())]
        at_rest(port, j.end_read()),
        hears(port, j.end_read()) == hears(port, j).push(zeros(n)),
{
    let p = port_after(port, j);
    lemma_update(p);
    assert(hardware::levels(seq![1u8, 0]));
    lemma_more(port, j, seq![1u8, 0]);
    assert(hears(port, j) + seq![zeros(n)] =~= hears(port, j).push(zeros(n)));
}

/// A bitstream is heard as it is, the highest bit of each byte first, and the port is at rest
/// again.
pub proof fn law_bitstream_heard(port: Tap, j: Jtag, bytes: Seq<u8>)
    requires
        at_rest(port, j),
        bytes.len() > 0,
    ensures
        ({
            let r = j.clks(seq![1u8, 0, 0]).clks(jtag::burst_clocks(bytes)).clks(seq![1u8, 0]);
            &&& at_rest(port, r)
            &&& hears(port, r) == hears(port, j).push(
                Word::Data { bits: high_bits_first(bytes) },
            )
        }),
{
    let p = port_after(port, j);
    let head = seq![1u8, 0, 0];
    let tail = seq![1u8, 0];
    let bits = high_bits_first(bytes);
    let clocks = jtag::burst_clocks(bytes);
    assert forall|i: int| 0 <= i < bits.len() implies #[trigger] bits[i] <= 1 && clocks[i] == 2
        * bits[i] + last(i, bits) by {
        lemma_digit(bytes[i / 8], 7 - i % 8);
    }
    let all = head + clocks + tail;
    assert(hardware::levels(all)) by {
        assert forall|i: int| 0 <= i < all.len() implies #[trigger] all[i] < 4 by {
            if 3 <= i < 3 + bits.len() {
                assert(all[i] == clocks[i - 3]);
                assert(bits[i - 3] <= 1);
            }
        }
    }
    hardware::law_clocks_join(j, head, clocks);
    hardware::law_clocks_join(j, head + clocks, tail);
    lemma_to_shift_dr(p);
    lemma_register(p, head, clocks, bits);
    lemma_more(port, j, all);
    let heard_bits = Word::Data { bits };
    assert(hears(port, j) + seq![heard_bits] =~= hears(port, j).push(heard_bits));
}

/// The reset clocks bring the port to rest, whatever was sent before.
pub proof fn law_reset_rests(port: Tap, j: Jtag)
    requires
        j.pending.len() < 255,
        hardware::levels(j.pending),
    ensures
        at_rest(port, j.clks(jtag::reset_clocks())),
{
    let all = jtag::reset_clocks();
    assert(hardware::levels(all)) by {
        assert forall|i: int| 0 <= i < all.len() implies #[trigger] all[i] < 4 by {}
    }
    tap::law_reset(port_after(port, j));
    lemma_more(port, j, all);
}

/// What was heard, to be gone on with.
pub struct Script {
    pub words: Seq<Word>,
}

impl Script {
    /// Then an instruction.
    pub open spec fn order(self, code: u8) -> Script {
        Script { words: self.words.push(order(code)) }
    }

    /// Then data.
    pub open spec fn data(self, bytes: Seq<u8>) -> Script {
        Script { words: self.words.push(data(bytes)) }
    }

    /// Then zeros, at the end of a read.
    pub open spec fn zeros(self, n: nat) -> Script {
        Script { words: self.words.push(zeros(n)) }
    }

    /// Then a pause.
    pub open spec fn pause(self, n: nat) -> Script {
        Script { words: self.words + pause(n) }
    }
}

/// What the device has heard of a session.
pub open spec fn script(port: Tap, j: Jtag) -> Script {
    Script { words: hears(port, j) }
}

} // verus!
