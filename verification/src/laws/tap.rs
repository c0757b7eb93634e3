//! What the clocks do to the JTAG state machine of the FPGA.

use vstd::prelude::*;

use crate::jtag;

verus! {

/// The states of a JTAG port.
pub enum TapState {
    TestLogicReset,
    RunTestIdle,
    SelectDr,
    CaptureDr,
    ShiftDr,
    Exit1Dr,
    PauseDr,
    Exit2Dr,
    UpdateDr,
    SelectIr,
    CaptureIr,
    ShiftIr,
    Exit1Ir,
    PauseIr,
    Exit2Ir,
    UpdateIr,
}

/// What a port tells its device.
pub enum Update {
    /// The bits of an instruction, the first one first.
    Instruction { bits: Seq<u8> },
    /// The bits of data for the instruction before, the first one first.
    Data { bits: Seq<u8> },
}

/// A JTAG port, with the bits that were shifted into its registers, the first one first, and with
/// everything that it has told its device.
pub struct Tap {
    pub state: TapState,
    pub ir: Seq<u8>,
    pub dr: Seq<u8>,
    pub updates: Seq<Update>,
}

/// The state after a clock.
pub open spec fn next_state(state: TapState, tms: bool) -> TapState {
    match state {
        TapState::TestLogicReset => if tms {
            TapState::TestLogicReset
        } else {
            TapState::RunTestIdle
        },
        TapState::RunTestIdle => if tms {
            TapState::SelectDr
        } else {
            TapState::RunTestIdle
        },
        TapState::SelectDr => if tms {
            TapState::SelectIr
        } else {
            TapState::CaptureDr
        },
        TapState::CaptureDr => if tms {
            TapState::Exit1Dr
        } else {
            TapState::ShiftDr
        },
        TapState::ShiftDr => if tms {
            TapState::Exit1Dr
        } else {
            TapState::ShiftDr
        },
        TapState::Exit1Dr => if tms {
            TapState::UpdateDr
        } else {
            TapState::PauseDr
        },
        TapState::PauseDr => if tms {
            TapState::Exit2Dr
        } else {
            TapState::PauseDr
        },
        TapState::Exit2Dr => if tms {
            TapState::UpdateDr
        } else {
            TapState::ShiftDr
        },
        TapState::UpdateDr => if tms {
            TapState::SelectDr
        } else {
            TapState::RunTestIdle
        },
        TapState::SelectIr => if tms {
            TapState::TestLogicReset
        } else {
            TapState::CaptureIr
        },
        TapState::CaptureIr => if tms {
            TapState::Exit1Ir
        } else {
            TapState::ShiftIr
        },
        TapState::ShiftIr => if tms {
            TapState::Exit1Ir
        } else {
            TapState::ShiftIr
        },
        TapState::Exit1Ir => if tms {
            TapState::UpdateIr
        } else {
            TapState::PauseIr
        },
        TapState::PauseIr => if tms {
            TapState::Exit2Ir
        } else {
            TapState::PauseIr
        },
        TapState::Exit2Ir => if tms {
            TapState::UpdateIr
        } else {
            TapState::ShiftIr
        },
        TapState::UpdateIr => if tms {
            TapState::SelectDr
        } else {
            TapState::RunTestIdle
        },
    }
}

/// One clock: a register is emptied in its capture state, takes TDI in its shift state, and is
/// handed to the device when its update state is reached.
pub open spec fn step(tap: Tap, clock: u8) -> Tap {
    let tdi = clock / 2;
    let state = next_state(tap.state, clock % 2 == 1);
    Tap {
        state,
        ir: match tap.state {
            TapState::CaptureIr => Seq::empty(),
            TapState::ShiftIr => tap.ir.push(tdi),
            _ => tap.ir,
        },
        dr: match tap.state {
            TapState::CaptureDr => Seq::empty(),
            TapState::ShiftDr => tap.dr.push(tdi),
            _ => tap.dr,
        },
        updates: match state {
            TapState::UpdateIr => tap.updates.push(Update::Instruction { bits: tap.ir }),
            TapState::UpdateDr => tap.updates.push(Update::Data { bits: tap.dr }),
            _ => tap.updates,
        },
    }
}

/// The port after some clocks.
pub open spec fn run(tap: Tap, clocks: Seq<u8>) -> Tap
    decreases clocks.len(),
{
    if clocks.len() == 0 {
        tap
    } else {
        step(run(tap, clocks.drop_last()), clocks.last())
    }
}

/// Clocks and then others are all of them.
pub proof fn lemma_run_add(tap: Tap, s: Seq<u8>, t: Seq<u8>)
    ensures
        run(tap, s + t) == run(run(tap, s), t),
    decreases t.len(),
{
    if t.len() == 0 {
        assert(s + t =~= s);
    } else {
        lemma_run_add(tap, s, t.drop_last());
        assert((s + t).drop_last() =~= s + t.drop_last());
    }
}

proof fn lemma_run2(tap: Tap, a: u8, b: u8)
    ensures
        run(tap, seq![a, b]) == step(step(tap, a), b),
{
    assert(seq![a, b].drop_last() =~= seq![a]);
    assert(seq![a].drop_last() =~= Seq::empty());
    assert(run(tap, seq![a]) == step(run(tap, Seq::empty()), a));
}

proof fn lemma_run3(tap: Tap, a: u8, b: u8, c: u8)
    ensures
        run(tap, seq![a, b, c]) == step(step(step(tap, a), b), c),
{
    assert(seq![a, b, c].drop_last() =~= seq![a, b]);
    lemma_run2(tap, a, b);
}

/// The clocks that put bits into a register, with TMS high at the last one.
pub open spec fn shift_clocks(bits: Seq<u8>) -> Seq<u8> {
    Seq::new(
        bits.len(),
        |i: int|
            jtag::clock(
                bits[i],
                if i == bits.len() - 1 {
                    1
                } else {
                    0
                },
            ),
    )
}

/// In a shift state, bits go into the register until the last one.
proof fn lemma_shift(tap: Tap, bits: Seq<u8>, n: int)
    requires
        tap.state is ShiftDr || tap.state is ShiftIr,
        0 <= n <= bits.len(),
        forall|i: int| 0 <= i < bits.len() ==> #[trigger] bits[i] <= 1,
    ensures
        ({
            let r = run(tap, shift_clocks(bits).take(n));
            let shifted = bits.take(n);
            &&& r.updates == tap.updates
            &&& tap.state is ShiftDr ==> r.dr == tap.dr + shifted && r.ir == tap.ir
            &&& tap.state is ShiftIr ==> r.ir == tap.ir + shifted && r.dr == tap.dr
            &&& n < bits.len() || n == 0 ==> r.state == tap.state
            &&& n == bits.len() && n > 0 && tap.state is ShiftDr ==> r.state is Exit1Dr
            &&& n == bits.len() && n > 0 && tap.state is ShiftIr ==> r.state is Exit1Ir
        }),
    decreases n,
{
    if n == 0 {
        assert(tap.dr + bits.take(0) =~= tap.dr);
        assert(tap.ir + bits.take(0) =~= tap.ir);
    } else {
        lemma_shift(tap, bits, n - 1);
        assert(shift_clocks(bits).take(n).drop_last() =~= shift_clocks(bits).take(n - 1));
        assert(bits[n - 1] <= 1);
        assert(tap.dr + bits.take(n) =~= (tap.dr + bits.take(n - 1)).push(bits[n - 1]));
        assert(tap.ir + bits.take(n) =~= (tap.ir + bits.take(n - 1)).push(bits[n - 1]));
    }
}

/// The port after data for its device.
pub open spec fn with_data(tap: Tap, bits: Seq<u8>) -> Tap {
    Tap { dr: bits, updates: tap.updates.push(Update::Data { bits }), ..tap }
}

/// The bits of an instruction, the lowest one first.
pub open spec fn instruction_bits(ir: u8) -> Seq<u8> {
    Seq::new(8, |i: int| jtag::bit(ir, i))
}

/// The port after an instruction for its device.
pub open spec fn with_instruction(tap: Tap, ir: u8) -> Tap {
    let bits = instruction_bits(ir);
    Tap { ir: bits, updates: tap.updates.push(Update::Instruction { bits }), ..tap }
}

/// The first `size` bits of data, the lowest one of each byte first.
pub open spec fn data_bits(data: Seq<u8>, size: nat) -> Seq<u8> {
    Seq::new(size, |i: int| jtag::bit(data[i / 8], i % 8))
}

/// The bits of data, the highest one of each byte first.
pub open spec fn burst_bits(data: Seq<u8>) -> Seq<u8> {
    Seq::new(8 * data.len(), |i: int| jtag::bit(data[i / 8], 7 - i % 8))
}

/// From Run-Test/Idle through Shift-DR and back.
proof fn lemma_data_register(tap: Tap, bits: Seq<u8>)
    requires
        tap.state is RunTestIdle,
        bits.len() > 0,
        forall|i: int| 0 <= i < bits.len() ==> #[trigger] bits[i] <= 1,
    ensures
        run(tap, seq![1u8, 0, 0] + shift_clocks(bits) + seq![1u8, 0]) == with_data(tap, bits),
{
    let clocks = shift_clocks(bits);
    lemma_run3(tap, 1, 0, 0);
    let a = run(tap, seq![1u8, 0, 0]);
    lemma_run_add(tap, seq![1u8, 0, 0], clocks);
    lemma_shift(a, bits, bits.len() as int);
    assert(clocks.take(bits.len() as int) =~= clocks);
    assert(bits.take(bits.len() as int) =~= bits);
    assert(Seq::<u8>::empty() + bits =~= bits);
    let b = run(a, clocks);
    lemma_run_add(tap, seq![1u8, 0, 0] + clocks, seq![1u8, 0]);
    lemma_run2(b, 1, 0);
}

proof fn lemma_bit(b: u8, i: int)
    requires
        0 <= i < 8,
    ensures
        jtag::bit(b, i) <= 1,
{
    let n = i as u8;
    assert((b >> n) & 1 <= 1) by (bit_vector);
}

/// The reset clocks bring the port from any state to Run-Test/Idle.
pub proof fn law_reset(tap: Tap)
    ensures
        run(tap, jtag::reset_clocks()).state is RunTestIdle,
{
    let ones = Seq::new(16, |i: int| 1u8);
    assert(jtag::reset_clocks() =~= ones.push(0));
    assert(ones.push(0).drop_last() =~= ones);
    assert forall|n: int| 1 <= n <= 16 implies (#[trigger] ones.take(n)).drop_last() =~= ones.take(
        n - 1,
    ) by {}
    assert(ones.take(0) =~= Seq::empty());
    let s0 = run(tap, ones.take(0));
    let s1 = run(tap, ones.take(1));
    let s2 = run(tap, ones.take(2));
    let s3 = run(tap, ones.take(3));
    let s4 = run(tap, ones.take(4));
    let s5 = run(tap, ones.take(5));
    assert(s5.state is TestLogicReset);
    lemma_stays_reset(tap, 16);
    assert(ones.take(16) =~= ones);
}

proof fn lemma_stays_reset(tap: Tap, n: int)
    requires
        5 <= n <= 16,
        run(tap, Seq::new(16, |i: int| 1u8).take(5)).state is TestLogicReset,
    ensures
        run(tap, Seq::new(16, |i: int| 1u8).take(n)).state is TestLogicReset,
    decreases n,
{
    let ones = Seq::new(16, |i: int| 1u8);
    if n > 5 {
        lemma_stays_reset(tap, n - 1);
        assert(ones.take(n).drop_last() =~= ones.take(n - 1));
    }
}

/// An instruction arrives at the device, its lowest bit first, and nothing else changes.
pub proof fn law_instruction(tap: Tap, ir: u8)
    requires
        tap.state is RunTestIdle,
    ensures
        run(tap, jtag::ir_clocks(ir)) == with_instruction(tap, ir),
{
    let bits = instruction_bits(ir);
    assert forall|i: int| 0 <= i < bits.len() implies #[trigger] bits[i] <= 1 by {
        lemma_bit(ir, i);
    }
    let head = seq![1u8, 1, 0, 0];
    let clocks = shift_clocks(bits);
    assert(jtag::ir_clocks(ir) =~= head + clocks + seq![1u8, 0]);
    assert(head.drop_last() =~= seq![1u8, 1, 0]);
    lemma_run3(tap, 1, 1, 0);
    let a = run(tap, head);
    assert(a.state is ShiftIr);
    lemma_run_add(tap, head, clocks);
    lemma_shift(a, bits, 8);
    assert(clocks.take(8) =~= clocks);
    assert(bits.take(8) =~= bits);
    assert(Seq::<u8>::empty() + bits =~= bits);
    let b = run(a, clocks);
    lemma_run_add(tap, head + clocks, seq![1u8, 0]);
    lemma_run2(b, 1, 0);
}

/// Data arrives at the device, its lowest bit first, and nothing else changes.
pub proof fn law_data(tap: Tap, data: Seq<u8>, size: nat)
    requires
        tap.state is RunTestIdle,
        0 < size <= 8 * data.len(),
    ensures
        run(tap, jtag::dr_clocks(data, size)) == with_data(tap, data_bits(data, size)),
{
    let bits = data_bits(data, size);
    assert forall|i: int| 0 <= i < bits.len() implies #[trigger] bits[i] <= 1 by {
        lemma_bit(data[i / 8], i % 8);
    }
    assert(jtag::dr_clocks(data, size) =~= seq![1u8, 0, 0] + shift_clocks(bits) + seq![1u8, 0]);
    lemma_data_register(tap, bits);
}

/// A bitstream arrives at the device, the highest bit of each byte first.
pub proof fn law_burst(tap: Tap, data: Seq<u8>)
    requires
        tap.state is RunTestIdle,
        data.len() > 0,
    ensures
        run(tap, seq![1u8, 0, 0] + jtag::burst_clocks(data) + seq![1u8, 0]) == with_data(
            tap,
            burst_bits(data),
        ),
{
    let bits = burst_bits(data);
    assert forall|i: int| 0 <= i < bits.len() implies #[trigger] bits[i] <= 1 by {
        lemma_bit(data[i / 8], 7 - i % 8);
    }
    assert(jtag::burst_clocks(data) =~= shift_clocks(bits));
    lemma_data_register(tap, bits);
}

/// Reading `size` bits shifts the data register exactly as often and returns to Run-Test/Idle.
pub proof fn law_read(tap: Tap, size: nat)
    requires
        tap.state is RunTestIdle,
        size > 0,
    ensures
        run(tap, seq![1u8, 0, 0] + jtag::sample_clocks(size) + seq![1u8, 0]) == with_data(
            tap,
            jtag::idle(size),
        ),
{
    let bits = jtag::idle(size);
    assert(jtag::sample_clocks(size) =~= shift_clocks(bits));
    lemma_data_register(tap, bits);
}

/// Idle clocks leave the port in Run-Test/Idle.
pub proof fn law_idle(tap: Tap, n: nat)
    requires
        tap.state is RunTestIdle,
    ensures
        run(tap, jtag::idle(n)) == tap,
    decreases n,
{
    if n > 0 {
        law_idle(tap, (n - 1) as nat);
        assert(jtag::idle(n).drop_last() =~= jtag::idle((n - 1) as nat));
    }
}

/// From Run-Test/Idle to Shift-DR.
pub proof fn lemma_begin_shift(tap: Tap)
    requires
        tap.state is RunTestIdle,
    ensures
        run(tap, seq![1u8, 0, 0]).state is ShiftDr,
        run(tap, seq![1u8, 0, 0]).updates == tap.updates,
{
    lemma_run3(tap, 1, 0, 0);
}

/// One bit is shifted out.
pub proof fn lemma_one_sample(tap: Tap)
    requires
        tap.state is ShiftDr,
    ensures
        run(tap, jtag::sample_clocks(1)).updates == tap.updates,
{
    assert(jtag::sample_clocks(1) =~= seq![1u8]);
    assert(seq![1u8].drop_last() =~= Seq::empty());
    assert(run(tap, seq![1u8]) == step(run(tap, Seq::empty()), 1));
}

} // verus!
