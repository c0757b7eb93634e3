//! What the FPGA is told when a configuration is loaded or programmed.

use vstd::prelude::*;

use crate::flash;
use crate::flash::Flash;
use crate::fpga;
use crate::fpga::{
    ISC_DISABLE, ISC_ENABLE, ISC_ENABLE_SRAM, ISC_ERASE, ISC_ERASE_SRAM, ISC_NOOP,
    LSC_BITSTREAM_BURST, LSC_CHECK_BUSY, LSC_INIT_ADDRESS, LSC_PROG_FEABITS, LSC_PROG_FEATURE,
    LSC_PROG_INCR_NV,
};
use crate::jed::FLASH_ROW_SIZE;
use crate::jtag;
use crate::jtag::Jtag;
use crate::laws::hardware;
use crate::laws::tap;
use crate::laws::tap::{Tap, Update};
use crate::usb;
use crate::usb::{Act, MAX_COUNT_IN_JTAG_REQUEST};

verus! {

/// The clocks that were sent between two moments.
pub open spec fn sent_since(before: Seq<Act>, after: Seq<Act>) -> Seq<u8> {
    hardware::sent(after).skip(hardware::sent(before).len() as int)
}

/// An instruction for the device.
pub open spec fn instruction(ir: u8) -> Update {
    Update::Instruction { bits: tap::instruction_bits(ir) }
}

/// What the device is told when a configuration is loaded: to erase its SRAM, to take the bits
/// of the file, and to use them.
pub open spec fn load_updates(data: Seq<u8>) -> Seq<Update> {
    seq![
        instruction(ISC_ENABLE),
        Update::Data { bits: tap::data_bits(seq![ISC_ENABLE_SRAM], 8) },
        instruction(ISC_ERASE),
        Update::Data { bits: tap::data_bits(seq![ISC_ERASE_SRAM], 8) },
        instruction(LSC_BITSTREAM_BURST),
        Update::Data { bits: tap::burst_bits(data) },
        instruction(ISC_DISABLE),
        instruction(ISC_NOOP),
    ]
}

proof fn lemma_clock_levels(b: u8, i: int, tms: u8)
    requires
        0 <= i < 8,
        tms <= 1,
    ensures
        jtag::clock(jtag::bit(b, i), tms) < 4,
{
    let n = i as u8;
    assert((b >> n) & 1 <= 1) by (bit_vector);
}

proof fn lemma_ir_levels(ir: u8)
    ensures
        hardware::levels(jtag::ir_clocks(ir)),
{
    let s = jtag::ir_clocks(ir);
    assert forall|i: int| 0 <= i < s.len() implies #[trigger] s[i] < 4 by {
        if 4 <= i < 12 {
            lemma_clock_levels(
                ir,
                i - 4,
                if i == 11 {
                    1
                } else {
                    0
                },
            );
        }
    }
}

proof fn lemma_byte_levels(b: u8)
    ensures
        hardware::levels(jtag::dr_clocks(seq![b], 8)),
{
    let s = jtag::dr_clocks(seq![b], 8);
    assert forall|i: int| 0 <= i < s.len() implies #[trigger] s[i] < 4 by {
        if 3 <= i < 11 {
            lemma_clock_levels(
                b,
                i - 3,
                if i == 10 {
                    1
                } else {
                    0
                },
            );
        }
    }
}

proof fn lemma_burst_levels(data: Seq<u8>)
    ensures
        hardware::levels(jtag::burst_clocks(data)),
{
    let s = jtag::burst_clocks(data);
    assert forall|i: int| 0 <= i < s.len() implies #[trigger] s[i] < 4 by {
        lemma_clock_levels(
            data[i / 8],
            7 - i % 8,
            if i == 8 * data.len() - 1 {
                1
            } else {
                0
            },
        );
    }
}

/// A machine and a port that have seen the same clocks, from where they started.
spec fn in_step(start: Jtag, j: Jtag, port: Tap, p: Tap, clocks: Seq<u8>) -> bool {
    &&& j == start.clks(clocks)
    &&& p == tap::run(port, clocks)
    &&& p.state is RunTestIdle
    &&& hardware::levels(clocks)
}

/// They stay so, through more clocks that lead back to Run-Test/Idle.
proof fn lemma_in_step(
    start: Jtag,
    j: Jtag,
    port: Tap,
    p: Tap,
    clocks: Seq<u8>,
    more: Seq<u8>,
) -> (all: Seq<u8>)
    requires
        in_step(start, j, port, p, clocks),
        hardware::levels(more),
        tap::run(p, more).state is RunTestIdle,
    ensures
        all == clocks + more,
        in_step(start, j.clks(more), port, tap::run(p, more), all),
{
    hardware::law_clocks_join(start, clocks, more);
    tap::lemma_run_add(port, clocks, more);
    assert forall|i: int| 0 <= i < (clocks + more).len() implies #[trigger] (clocks + more)[i]
        < 4 by {
        if i >= clocks.len() {
            assert((clocks + more)[i] == more[i - clocks.len()]);
        }
    }
    clocks + more
}

/// The clocks that load a configuration tell the device what it has to be told, and nothing
/// else, and leave its port in Run-Test/Idle.
pub proof fn law_configuration_loaded(bus: Seq<Act>, data: Seq<u8>, port: Tap)
    requires
        data.len() > 0,
        port.state is RunTestIdle,
    ensures
        ({
            let after = fpga::sram_programmed(fpga::fresh(bus), data).bus;
            let r = tap::run(port, sent_since(bus, after));
            &&& hardware::sent(bus).is_prefix_of(hardware::sent(after))
            &&& r.state is RunTestIdle
            &&& r.updates == port.updates + load_updates(data)
        }),
{
    let start = fpga::fresh(bus);
    let none = Seq::<u8>::empty();
    let sram = seq![ISC_ENABLE_SRAM];
    let erase = seq![ISC_ERASE_SRAM];
    lemma_ir_levels(ISC_ENABLE);
    lemma_ir_levels(ISC_ERASE);
    lemma_ir_levels(LSC_BITSTREAM_BURST);
    lemma_ir_levels(ISC_DISABLE);
    lemma_ir_levels(ISC_NOOP);
    lemma_byte_levels(ISC_ENABLE_SRAM);
    lemma_byte_levels(ISC_ERASE_SRAM);
    lemma_burst_levels(data);

    let p0 = port;
    let j0 = start;
    assert(start.clks(none) == start);
    assert(tap::run(port, none) == port);
    let c0 = none;

    tap::law_instruction(p0, ISC_ENABLE);
    let c1 = lemma_in_step(start, j0, port, p0, c0, jtag::ir_clocks(ISC_ENABLE));
    let j1 = j0.clks(jtag::ir_clocks(ISC_ENABLE));
    let p1 = tap::with_instruction(p0, ISC_ENABLE);
    tap::law_data(p1, sram, 8);
    let c2 = lemma_in_step(start, j1, port, p1, c1, jtag::dr_clocks(sram, 8));
    let j2 = j1.clks(jtag::dr_clocks(sram, 8));
    let p2 = tap::with_data(p1, tap::data_bits(sram, 8));
    tap::law_idle(p2, 8);
    let c3 = lemma_in_step(start, j2, port, p2, c2, jtag::idle(8));
    let j3 = j2.clks(jtag::idle(8));

    tap::law_instruction(p2, ISC_ERASE);
    let c4 = lemma_in_step(start, j3, port, p2, c3, jtag::ir_clocks(ISC_ERASE));
    let j4 = j3.clks(jtag::ir_clocks(ISC_ERASE));
    let p4 = tap::with_instruction(p2, ISC_ERASE);
    tap::law_data(p4, erase, 8);
    let c5 = lemma_in_step(start, j4, port, p4, c4, jtag::dr_clocks(erase, 8));
    let j5 = j4.clks(jtag::dr_clocks(erase, 8));
    let p5 = tap::with_data(p4, tap::data_bits(erase, 8));
    tap::law_idle(p5, 8);
    let c6 = lemma_in_step(start, j5, port, p5, c5, jtag::idle(8));
    let j6 = j5.clks(jtag::idle(8));

    tap::law_instruction(p5, LSC_BITSTREAM_BURST);
    let c7 = lemma_in_step(start, j6, port, p5, c6, jtag::ir_clocks(LSC_BITSTREAM_BURST));
    let j7 = j6.clks(jtag::ir_clocks(LSC_BITSTREAM_BURST));
    let p7 = tap::with_instruction(p5, LSC_BITSTREAM_BURST);
    tap::law_idle(p7, 8);
    let c8 = lemma_in_step(start, j7, port, p7, c7, jtag::idle(8));
    let j8 = j7.clks(jtag::idle(8));

    let head = seq![1u8, 0, 0];
    let tail = seq![1u8, 0];
    let burst = jtag::burst_clocks(data);
    let shift = head + burst + tail;
    assert(hardware::levels(shift)) by {
        assert forall|i: int| 0 <= i < shift.len() implies #[trigger] shift[i] < 4 by {
            if 3 <= i < 3 + burst.len() {
                assert(shift[i] == burst[i - 3]);
            }
        }
    }
    tap::law_burst(p7, data);
    let c9 = lemma_in_step(start, j8, port, p7, c8, shift);
    let j9 = j8.clks(shift);
    let p9 = tap::with_data(p7, tap::burst_bits(data));
    hardware::law_clocks_join(j8, head, burst);
    hardware::law_clocks_join(j8, head + burst, tail);
    assert(j9 == j8.clks(head).clks(burst).clks(tail));
    tap::law_idle(p9, 100);
    let c10 = lemma_in_step(start, j9, port, p9, c9, jtag::idle(100));
    let j10 = j9.clks(jtag::idle(100));

    tap::law_instruction(p9, ISC_DISABLE);
    let c11 = lemma_in_step(start, j10, port, p9, c10, jtag::ir_clocks(ISC_DISABLE));
    let j11 = j10.clks(jtag::ir_clocks(ISC_DISABLE));
    let p11 = tap::with_instruction(p9, ISC_DISABLE);
    tap::law_idle(p11, 8);
    let c12 = lemma_in_step(start, j11, port, p11, c11, jtag::idle(8));
    let j12 = j11.clks(jtag::idle(8));

    tap::law_instruction(p11, ISC_NOOP);
    let c13 = lemma_in_step(start, j12, port, p11, c12, jtag::ir_clocks(ISC_NOOP));
    let j13 = j12.clks(jtag::ir_clocks(ISC_NOOP));
    let p13 = tap::with_instruction(p11, ISC_NOOP);
    tap::law_idle(p13, 100);
    let c14 = lemma_in_step(start, j13, port, p13, c13, jtag::idle(100));
    let j14 = j13.clks(jtag::idle(100));

    let after = fpga::sram_programmed(start, data).bus;
    assert(after == j14.sync().bus);
    hardware::law_clocks_in_order(start, c14);
    hardware::law_sync_sends_all(j14);
    assert(hardware::all_clocks(start) =~= hardware::sent(bus));
    assert(hardware::sent(after) == hardware::sent(bus) + c14);
    assert(sent_since(bus, after) =~= c14);
    assert(p13.updates =~= port.updates + load_updates(data));
}

/// Data of a size.
proof fn lemma_data_levels(data: Seq<u8>, size: nat)
    requires
        size <= 8 * data.len(),
    ensures
        hardware::levels(jtag::dr_clocks(data, size)),
{
    let s = jtag::dr_clocks(data, size);
    assert forall|i: int| 0 <= i < s.len() implies #[trigger] s[i] < 4 by {
        if 3 <= i < 3 + size {
            lemma_clock_levels(
                data[(i - 3) / 8],
                (i - 3) % 8,
                if i - 3 == size - 1 {
                    1
                } else {
                    0
                },
            );
        }
    }
}

/// Asking whether the device is busy sends all clocks so far, and tells the device nothing but
/// the instruction to answer.
proof fn lemma_busy_asked(start: Jtag, j: Jtag, port: Tap, p: Tap, clocks: Seq<u8>)
    requires
        start.pending.len() < MAX_COUNT_IN_JTAG_REQUEST,
        hardware::levels(start.pending),
        in_step(start, j, tap::run(port, hardware::all_clocks(start)), p, clocks),
    ensures
        ({
            let r = j.clks(jtag::ir_clocks(LSC_CHECK_BUSY)).read_dr(1);
            &&& r.pending.len() == 0
            &&& tap::run(port, hardware::sent(r.bus)).updates == p.updates.push(
                instruction(LSC_CHECK_BUSY),
            )
        }),
{
    let before = hardware::all_clocks(start);
    let p0 = tap::run(port, before);
    lemma_ir_levels(LSC_CHECK_BUSY);
    tap::law_instruction(p, LSC_CHECK_BUSY);
    let c = lemma_in_step(start, j, p0, p, clocks, jtag::ir_clocks(LSC_CHECK_BUSY));
    let k = j.clks(jtag::ir_clocks(LSC_CHECK_BUSY));
    let q = tap::with_instruction(p, LSC_CHECK_BUSY);

    hardware::law_clocks_in_order(start, c);
    let head = seq![1u8, 0, 0];
    let sample = jtag::sample_clocks(1);
    hardware::law_clocks_in_order(k, head);
    let synced = k.clks(head).sync();
    hardware::law_sync_sends_all(k.clks(head));
    hardware::law_clocks_in_order(synced, sample);
    let sampled = synced.clks(sample).sync();
    hardware::law_sync_sends_all(synced.clks(sample));
    assert(hardware::all_clocks(synced) =~= hardware::sent(synced.bus));
    let asked = sampled.act(usb::jtag_in(1));
    assert(asked.bus.drop_last() =~= sampled.bus);
    assert(hardware::clocks_of(usb::jtag_in(1)) =~= Seq::<u8>::empty());
    assert(hardware::sent(asked.bus) =~= hardware::sent(sampled.bus));
    assert(hardware::sent(sampled.bus) =~= before + c + head + sample);

    tap::lemma_run_add(port, before, c);
    tap::lemma_run_add(port, before + c, head);
    tap::lemma_run_add(port, before + c + head, sample);
    tap::lemma_begin_shift(q);
    tap::lemma_one_sample(tap::run(q, head));
}

/// A message to the user sends no clock.
proof fn lemma_print(j: Jtag, text: Seq<char>)
    ensures
        hardware::all_clocks(j.act(flash::print(text))) == hardware::all_clocks(j),
{
    let act = flash::print(text);
    assert(j.act(act).bus.drop_last() =~= j.bus);
    assert(hardware::sent(j.bus) + hardware::clocks_of(act) =~= hardware::sent(j.bus));
}

/// A session between two operations: the clocks so far, sent or not, have brought the port to
/// Run-Test/Idle.
pub open spec fn at_rest(m: Flash, port: Tap) -> bool {
    &&& m.jtag.pending.len() < MAX_COUNT_IN_JTAG_REQUEST
    &&& hardware::levels(m.jtag.pending)
    &&& tap::run(port, hardware::all_clocks(m.jtag)).state is RunTestIdle
}

/// From `m` to `r`, every clock was sent, and the device was told exactly `told`.
pub open spec fn tells(m: Flash, r: Flash, port: Tap, told: Seq<Update>) -> bool {
    &&& r.jtag.pending.len() == 0
    &&& tap::run(port, hardware::sent(r.jtag.bus)).updates == tap::run(
        port,
        hardware::all_clocks(m.jtag),
    ).updates + told
}

/// Programming a row tells the device to program it, with the bytes of that row, and then asks
/// whether it is busy.
pub proof fn law_row_told(m: Flash, row: int, port: Tap)
    requires
        0 <= row < m.rows(),
        at_rest(m, port),
    ensures
        tells(
            m,
            m.program_row(row),
            port,
            seq![
                instruction(LSC_PROG_INCR_NV),
                Update::Data { bits: tap::data_bits(m.row(row), FLASH_ROW_SIZE as nat) },
                instruction(LSC_CHECK_BUSY),
            ],
        ),
{
    let start = m.jtag;
    let bytes = m.row(row);
    let size = FLASH_ROW_SIZE as nat;
    let p0 = tap::run(port, hardware::all_clocks(start));
    lemma_ir_levels(LSC_PROG_INCR_NV);
    lemma_data_levels(bytes, size);

    tap::law_instruction(p0, LSC_PROG_INCR_NV);
    let c1 = lemma_in_step(
        start,
        start,
        p0,
        p0,
        Seq::empty(),
        jtag::ir_clocks(LSC_PROG_INCR_NV),
    );
    let j1 = start.clks(jtag::ir_clocks(LSC_PROG_INCR_NV));
    let p1 = tap::with_instruction(p0, LSC_PROG_INCR_NV);
    tap::law_data(p1, bytes, size);
    let c2 = lemma_in_step(start, j1, p0, p1, c1, jtag::dr_clocks(bytes, size));
    let j2 = j1.clks(jtag::dr_clocks(bytes, size));
    let p2 = tap::with_data(p1, tap::data_bits(bytes, size));
    tap::law_idle(p2, 1000);
    let c3 = lemma_in_step(start, j2, p0, p2, c2, jtag::idle(1000));
    lemma_busy_asked(start, j2.clks(jtag::idle(1000)), port, p2, c3);
    assert(p2.updates.push(instruction(LSC_CHECK_BUSY)) =~= p0.updates + seq![
        instruction(LSC_PROG_INCR_NV),
        Update::Data { bits: tap::data_bits(bytes, size) },
        instruction(LSC_CHECK_BUSY),
    ]);
}

/// After the last row was verified, the device is told to go back to its start and to program
/// the feature row of the file, and is then asked whether it is busy.
pub proof fn law_feature_row_told(m: Flash, row: int, port: Tap)
    requires
        m.rows() <= row,
        m.jed.feature.len() == 8,
        at_rest(m, port),
    ensures
        tells(
            m,
            m.verify_row(row),
            port,
            seq![
                instruction(LSC_INIT_ADDRESS),
                instruction(LSC_PROG_FEATURE),
                Update::Data { bits: tap::data_bits(m.jed.feature, 64) },
                instruction(LSC_CHECK_BUSY),
            ],
        ),
{
    let text = "Programming and verifying Feature Row\n"@;
    let start = m.jtag.act(flash::print(text));
    let feature = m.jed.feature;
    lemma_print(m.jtag, text);
    let p0 = tap::run(port, hardware::all_clocks(start));
    lemma_ir_levels(LSC_INIT_ADDRESS);
    lemma_ir_levels(LSC_PROG_FEATURE);
    lemma_data_levels(feature, 64);

    tap::law_instruction(p0, LSC_INIT_ADDRESS);
    let c1 = lemma_in_step(
        start,
        start,
        p0,
        p0,
        Seq::empty(),
        jtag::ir_clocks(LSC_INIT_ADDRESS),
    );
    let j1 = start.clks(jtag::ir_clocks(LSC_INIT_ADDRESS));
    let p1 = tap::with_instruction(p0, LSC_INIT_ADDRESS);
    tap::law_idle(p1, 8);
    let c2 = lemma_in_step(start, j1, p0, p1, c1, jtag::idle(8));
    let j2 = j1.clks(jtag::idle(8));
    tap::law_instruction(p1, LSC_PROG_FEATURE);
    let c3 = lemma_in_step(start, j2, p0, p1, c2, jtag::ir_clocks(LSC_PROG_FEATURE));
    let j3 = j2.clks(jtag::ir_clocks(LSC_PROG_FEATURE));
    let p3 = tap::with_instruction(p1, LSC_PROG_FEATURE);
    tap::law_data(p3, feature, 64);
    let c4 = lemma_in_step(start, j3, p0, p3, c3, jtag::dr_clocks(feature, 64));
    let j4 = j3.clks(jtag::dr_clocks(feature, 64));
    let p4 = tap::with_data(p3, tap::data_bits(feature, 64));
    tap::law_idle(p4, 8);
    let c5 = lemma_in_step(start, j4, p0, p4, c4, jtag::idle(8));
    lemma_busy_asked(start, j4.clks(jtag::idle(8)), port, p4, c5);
    assert(p4.updates.push(instruction(LSC_CHECK_BUSY)) =~= p0.updates + seq![
        instruction(LSC_INIT_ADDRESS),
        instruction(LSC_PROG_FEATURE),
        Update::Data { bits: tap::data_bits(feature, 64) },
        instruction(LSC_CHECK_BUSY),
    ]);
}

/// The device is told to program the feature bits of the file, and is then asked whether it is
/// busy.
pub proof fn law_feature_bits_told(m: Flash, port: Tap)
    requires
        m.jed.feabits.len() == 2,
        at_rest(m, port),
    ensures
        tells(
            m,
            m.program_feabits(),
            port,
            seq![
                instruction(LSC_PROG_FEABITS),
                Update::Data { bits: tap::data_bits(m.jed.feabits, 16) },
                instruction(LSC_CHECK_BUSY),
            ],
        ),
{
    let text = "Programming and verifying FEABITS\n"@;
    let start = m.jtag.act(flash::print(text));
    let feabits = m.jed.feabits;
    lemma_print(m.jtag, text);
    let p0 = tap::run(port, hardware::all_clocks(start));
    lemma_ir_levels(LSC_PROG_FEABITS);
    lemma_data_levels(feabits, 16);

    tap::law_instruction(p0, LSC_PROG_FEABITS);
    let c1 = lemma_in_step(
        start,
        start,
        p0,
        p0,
        Seq::empty(),
        jtag::ir_clocks(LSC_PROG_FEABITS),
    );
    let j1 = start.clks(jtag::ir_clocks(LSC_PROG_FEABITS));
    let p1 = tap::with_instruction(p0, LSC_PROG_FEABITS);
    tap::law_data(p1, feabits, 16);
    let c2 = lemma_in_step(start, j1, p0, p1, c1, jtag::dr_clocks(feabits, 16));
    let j2 = j1.clks(jtag::dr_clocks(feabits, 16));
    let p2 = tap::with_data(p1, tap::data_bits(feabits, 16));
    tap::law_idle(p2, 8);
    let c3 = lemma_in_step(start, j2, p0, p2, c2, jtag::idle(8));
    lemma_busy_asked(start, j2.clks(jtag::idle(8)), port, p2, c3);
    assert(p2.updates.push(instruction(LSC_CHECK_BUSY)) =~= p0.updates + seq![
        instruction(LSC_PROG_FEABITS),
        Update::Data { bits: tap::data_bits(feabits, 16) },
        instruction(LSC_CHECK_BUSY),
    ]);
}

} // verus!
