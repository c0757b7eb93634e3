//! The flash memory from the side of the FPGA: what it is told, step by step.

use vstd::prelude::*;

use crate::flash;
use crate::flash::{Flash, FlashStage, Wait};
use crate::fpga;
use crate::fpga::FpgaError;
use crate::jed::Jed;
use crate::laws::device;
use crate::laws::device::Script;
use crate::laws::tap::Tap;
use crate::usb;
use crate::usb::{Act, SessionStep};

verus! {

broadcast use {
    device::law_order_heard,
    device::law_data_heard,
    device::law_pause_heard,
    device::law_message_unheard,
    device::law_sync_unheard,
    device::law_read_asks,
    device::law_read_ends,
};

/// What the device has heard.
pub open spec fn so_far(port: Tap, m: Flash) -> Script {
    device::script(port, m.jtag)
}

/// How many bits are asked for in a stage.
pub open spec fn bits_asked(stage: FlashStage) -> nat {
    match stage {
        FlashStage::Busy { .. } => 1,
        FlashStage::Status { .. } => 32,
        FlashStage::VerifyRow { .. } => 128,
        FlashStage::VerifyFeature => 64,
        FlashStage::VerifyFeabits => 16,
        _ => 0,
    }
}

/// The session has asked for what it waits for.
pub open spec fn waits(port: Tap, m: Flash) -> bool {
    device::asks(port, m.jtag, bits_asked(m.stage))
}

/// What is programmed has whole rows, a feature row and feature bits.
pub open spec fn complete(jed: Jed) -> bool {
    &&& jed.config.len() % 16 == 0
    &&& jed.config.len() <= usize::MAX
    &&& jed.feature.len() == 8
    &&& jed.feabits.len() == 2
}

/// How many rows there are.
pub open spec fn row_count(jed: Jed) -> int {
    jed.config.len() as int / 16
}

/// A row.
pub open spec fn row_bytes(jed: Jed, row: int) -> Seq<u8> {
    jed.config.subrange(16 * row, 16 * row + 16)
}

/// Byte `i` of a reply, or zero if the reply is shorter.
pub open spec fn reply_byte(reply: Seq<u8>, i: int) -> int {
    if i < reply.len() {
        reply[i] as int
    } else {
        0
    }
}

/// The device says that it is busy.
pub open spec fn says_busy(reply: Seq<u8>) -> bool {
    reply_byte(reply, 0) % 16 != 0 || reply_byte(reply, 1) % 16 != 0
}

/// The status of the device, of which each byte of the reply has four bits, says busy.
pub open spec fn status_busy(reply: Seq<u8>) -> bool {
    reply_byte(reply, 3) % 2 == 1
}

/// The status of the device says that it has failed.
pub open spec fn status_fail(reply: Seq<u8>) -> bool {
    reply_byte(reply, 3) / 2 % 2 == 1
}

/// What a reply with four bits in each of its bytes says, eight bits to a byte.
pub open spec fn says(reply: Seq<u8>, bytes: Seq<u8>) -> bool {
    forall|k: int|
        0 <= k < bytes.len() ==> #[trigger] bytes[k] as int == reply_byte(reply, 2 * k) % 16 + 16
            * (reply_byte(reply, 2 * k + 1) % 16)
}

/// Two halves of a byte.
pub proof fn lemma_nibbles(a: u8, b: u8)
    ensures
        ((a & 0x0f) | ((b & 0x0f) << 4)) as int == a as int % 16 + 16 * (b as int % 16),
        ((a & 0x0f) | ((b & 0x0f) << 4)) & 0x10u8 != 0 <==> b as int % 2 == 1,
        ((a & 0x0f) | ((b & 0x0f) << 4)) & 0x20u8 != 0 <==> b as int / 2 % 2 == 1,
{
    assert(((a & 0x0f) | ((b & 0x0f) << 4)) == a % 16 + 16 * (b % 16) && (((a & 0x0f) | ((b & 0x0f)
        << 4)) & 0x10u8 != 0 <==> b % 2 == 1) && (((a & 0x0f) | ((b & 0x0f) << 4)) & 0x20u8 != 0
        <==> b / 2 % 2 == 1)) by (bit_vector);
}

/// What a reply says is what its samples are.
pub proof fn lemma_says(reply: Seq<u8>, bytes: Seq<u8>)
    ensures
        says(reply, bytes) == (usb::unpack_samples(reply, 8 * bytes.len() as int) == bytes),
{
    let read = usb::unpack_samples(reply, 8 * bytes.len() as int);
    assert forall|k: int| 0 <= k < bytes.len() implies #[trigger] read[k] as int == reply_byte(
        reply,
        2 * k,
    ) % 16 + 16 * (reply_byte(reply, 2 * k + 1) % 16) by {
        lemma_nibbles(usb::byte_at(reply, 2 * k), usb::byte_at(reply, 2 * k + 1));
    }
    if says(reply, bytes) {
        assert forall|k: int| 0 <= k < bytes.len() implies read[k] == bytes[k] by {
            assert(bytes[k] as int == read[k] as int);
        }
        assert(read =~= bytes);
    }
}

/// A session begins with the erasure of the SRAM and of everything that outlasts power, and then
/// asks whether the device is busy.
pub proof fn law_begin_told(bus: Seq<Act>, erase_only: bool, jed: Jed, port: Tap)
    requires
        device::at_rest(port, fpga::fresh(bus)),
    ensures
        ({
            let r = flash::begun(bus, erase_only, jed);
            &&& r.stage == (FlashStage::Busy { of: Wait::Erase })
            &&& r.erase_only == erase_only
            &&& r.jed == jed
            &&& waits(port, r)
            &&& so_far(port, r) == device::script(port, fpga::fresh(bus)).order(0xc6).data(
                seq![0x00u8],
            ).pause(8).order(0x0e).data(seq![0x01u8]).pause(8).order(0xff).order(0xc6).data(
                seq![0x08u8],
            ).pause(8).order(0x0e).data(seq![0x0eu8]).pause(8).order(0xf0)
        }),
{
}

/// The device is asked again while it says that it is busy, and then for its status.
pub proof fn law_busy_told(m: Flash, reply: Seq<u8>, port: Tap)
    requires
        m.stage is Busy,
        waits(port, m),
    ensures
        ({
            let r = m.resume(reply);
            let of = m.stage->Busy_of;
            &&& r.erase_only == m.erase_only
            &&& r.jed == m.jed
            &&& waits(port, r)
            &&& if says_busy(reply) {
                &&& r.stage == m.stage
                &&& so_far(port, r) == so_far(port, m).zeros(1).order(0xf0)
            } else {
                &&& r.stage == (FlashStage::Status { of })
                &&& so_far(port, r) == so_far(port, m).zeros(1).order(0x3c)
            }
        }),
{
    lemma_nibbles(usb::byte_at(reply, 0), usb::byte_at(reply, 1));
}

/// A session ends with an error if the status says that the device is busy or has failed. The
/// device is told nothing more.
pub proof fn law_status_fails(m: Flash, reply: Seq<u8>, port: Tap)
    requires
        m.stage is Status,
        waits(port, m),
        status_busy(reply) || status_fail(reply),
    ensures
        ({
            let r = m.resume(reply);
            &&& r.stage == (FlashStage::Failed {
                error: if status_busy(reply) {
                    FpgaError::Busy
                } else {
                    FpgaError::Fail
                },
            })
            &&& so_far(port, r) == so_far(port, m).zeros(32).pause(8)
        }),
{
    lemma_nibbles(usb::byte_at(reply, 2), usb::byte_at(reply, 3));
}

/// The status of the device is good.
pub open spec fn status_good(m: Flash, reply: Seq<u8>, port: Tap) -> bool {
    &&& m.stage is Status
    &&& waits(port, m)
    &&& !status_busy(reply)
    &&& !status_fail(reply)
}

proof fn lemma_ready(m: Flash, reply: Seq<u8>, port: Tap)
    requires
        status_good(m, reply, port),
    ensures
        ({
            let n = m.end_read().clks(crate::jtag::idle(8));
            &&& m.resume(reply) == n.ready(m.stage->Status_of)
            &&& device::at_rest(port, n.jtag)
            &&& so_far(port, n) == so_far(port, m).zeros(32).pause(8)
            &&& n.jed == m.jed
            &&& n.erase_only == m.erase_only
        }),
{
    lemma_nibbles(usb::byte_at(reply, 2), usb::byte_at(reply, 3));
}

/// An erasure is done when the status is good.
pub proof fn law_erasure_ends(m: Flash, reply: Seq<u8>, port: Tap)
    requires
        status_good(m, reply, port),
        m.stage == (FlashStage::Status { of: Wait::Erase }),
        m.erase_only,
    ensures
        m.resume(reply).stage == FlashStage::Finished,
        so_far(port, m.resume(reply)) == so_far(port, m).zeros(32).pause(8),
{
    lemma_ready(m, reply, port);
}

/// A row is programmed: the device gets its bytes, has time for it, and is asked whether it is
/// busy.
proof fn lemma_row_told(m: Flash, row: int, port: Tap)
    requires
        device::at_rest(port, m.jtag),
        complete(m.jed),
        0 <= row < row_count(m.jed),
    ensures
        ({
            let r = m.program_row(row);
            &&& r.stage == (FlashStage::Busy { of: Wait::Row { row: row as usize } })
            &&& r.erase_only == m.erase_only
            &&& r.jed == m.jed
            &&& waits(port, r)
            &&& so_far(port, r) == so_far(port, m).order(0x70).data(row_bytes(m.jed, row)).pause(
                1000,
            ).order(0xf0)
        }),
{
    assert(row_bytes(m.jed, row).len() == 16);
}

/// The feature row follows the last row.
proof fn lemma_feature_told(m: Flash, row: int, port: Tap)
    requires
        device::at_rest(port, m.jtag),
        complete(m.jed),
        row >= row_count(m.jed),
    ensures
        ({
            let r = m.verify_row(row);
            &&& r.stage == (FlashStage::Busy { of: Wait::Feature })
            &&& r.erase_only == m.erase_only
            &&& r.jed == m.jed
            &&& waits(port, r)
            &&& so_far(port, r) == so_far(port, m).order(0x46).pause(8).order(0xe4).data(
                m.jed.feature,
            ).pause(8).order(0xf0)
        }),
{
}

/// Before the rows are programmed, the device goes to the first of them.
pub proof fn law_first_row_told(m: Flash, reply: Seq<u8>, port: Tap)
    requires
        status_good(m, reply, port),
        m.stage == (FlashStage::Status { of: Wait::Erase }),
        !m.erase_only,
        complete(m.jed),
        row_count(m.jed) > 0,
    ensures
        ({
            let r = m.resume(reply);
            &&& r.stage == (FlashStage::Busy { of: Wait::Row { row: 0 } })
            &&& r.erase_only == m.erase_only
            &&& r.jed == m.jed
            &&& waits(port, r)
            &&& so_far(port, r) == so_far(port, m).zeros(32).pause(8).order(0x46).pause(8).order(
                0x70,
            ).data(row_bytes(m.jed, 0)).pause(1000).order(0xf0)
        }),
{
    lemma_ready(m, reply, port);
    let n = m.end_read().clks(crate::jtag::idle(8)).act(
        flash::print("Programming configuration data \n"@),
    ).clks(crate::jtag::ir_clocks(0x46)).clks(crate::jtag::idle(8));
    lemma_row_told(n, 0, port);
}

/// A file without rows has nothing to program and nothing to read there: the feature row follows.
pub proof fn law_no_rows_told(m: Flash, reply: Seq<u8>, port: Tap)
    requires
        status_good(m, reply, port),
        m.stage == (FlashStage::Status { of: Wait::Erase }),
        !m.erase_only,
        complete(m.jed),
        row_count(m.jed) == 0,
    ensures
        ({
            let r = m.resume(reply);
            &&& r.stage == (FlashStage::Busy { of: Wait::Feature })
            &&& r.erase_only == m.erase_only
            &&& r.jed == m.jed
            &&& waits(port, r)
            &&& so_far(port, r) == so_far(port, m).zeros(32).pause(8).order(0x46).pause(8).order(
                0x46,
            ).pause(8).order(0x73).pause(8).order(0x46).pause(8).order(0xe4).data(
                m.jed.feature,
            ).pause(8).order(0xf0)
        }),
{
    lemma_ready(m, reply, port);
    let n = m.end_read().clks(crate::jtag::idle(8)).act(
        flash::print("Programming configuration data \n"@),
    ).clks(crate::jtag::ir_clocks(0x46)).clks(crate::jtag::idle(8)).act(
        flash::print("\n"@),
    ).act(flash::print("Verifying configuration data\n"@)).clks(
        crate::jtag::ir_clocks(0x46),
    ).clks(crate::jtag::idle(8)).clks(crate::jtag::ir_clocks(0x73)).clks(crate::jtag::idle(8));
    lemma_feature_told(n, 0, port);
}

/// One row follows the other.
pub proof fn law_next_row_told(m: Flash, reply: Seq<u8>, port: Tap, row: usize)
    requires
        status_good(m, reply, port),
        m.stage == (FlashStage::Status { of: Wait::Row { row } }),
        complete(m.jed),
        row + 1 < row_count(m.jed),
    ensures
        ({
            let r = m.resume(reply);
            &&& r.stage == (FlashStage::Busy { of: Wait::Row { row: (row + 1) as usize } })
            &&& r.erase_only == m.erase_only
            &&& r.jed == m.jed
            &&& waits(port, r)
            &&& so_far(port, r) == so_far(port, m).zeros(32).pause(8).order(0x70).data(
                row_bytes(m.jed, row + 1),
            ).pause(1000).order(0xf0)
        }),
{
    lemma_ready(m, reply, port);
    let n = m.end_read().clks(crate::jtag::idle(8));
    if row % 256 == 0 {
        lemma_row_told(n.act(flash::print("."@)), row + 1, port);
    } else {
        lemma_row_told(n, row + 1, port);
    }
}

/// After the last row, the device goes back to the first one and is told to read the rows, which
/// are asked for one by one.
pub proof fn law_rows_read_told(m: Flash, reply: Seq<u8>, port: Tap, row: usize)
    requires
        status_good(m, reply, port),
        m.stage == (FlashStage::Status { of: Wait::Row { row } }),
        complete(m.jed),
        row + 1 == row_count(m.jed),
    ensures
        ({
            let r = m.resume(reply);
            &&& r.stage == (FlashStage::VerifyRow { row: 0 })
            &&& r.erase_only == m.erase_only
            &&& r.jed == m.jed
            &&& waits(port, r)
            &&& so_far(port, r) == so_far(port, m).zeros(32).pause(8).order(0x46).pause(8).order(
                0x73,
            ).pause(8)
        }),
{
    lemma_ready(m, reply, port);
}

/// The next row is asked for if the one before is as it was written.
pub proof fn law_row_checked(m: Flash, reply: Seq<u8>, port: Tap, row: usize)
    requires
        waits(port, m),
        m.stage == (FlashStage::VerifyRow { row }),
        complete(m.jed),
        row < row_count(m.jed),
    ensures
        ({
            let r = m.resume(reply);
            let read = so_far(port, m).zeros(128).pause(8);
            &&& r.erase_only == m.erase_only
            &&& r.jed == m.jed
            &&& if !says(reply, row_bytes(m.jed, row as int)) {
                &&& r.stage == (FlashStage::Failed { error: FpgaError::Configuration })
                &&& so_far(port, r) == read
            } else if row + 1 < row_count(m.jed) {
                &&& r.stage == (FlashStage::VerifyRow { row: (row + 1) as usize })
                &&& waits(port, r)
                &&& so_far(port, r) == read
            } else {
                &&& r.stage == (FlashStage::Busy { of: Wait::Feature })
                &&& waits(port, r)
                &&& so_far(port, r) == read.order(0x46).pause(8).order(0xe4).data(
                    m.jed.feature,
                ).pause(8).order(0xf0)
            }
        }),
{
    lemma_says(reply, row_bytes(m.jed, row as int));
    assert(row_bytes(m.jed, row as int).len() == 16);
    let n = m.end_read().clks(crate::jtag::idle(8));
    if row + 1 >= row_count(m.jed) {
        lemma_feature_told(n, row + 1, port);
    }
}

/// The feature row is read when it was programmed.
pub proof fn law_feature_read_told(m: Flash, reply: Seq<u8>, port: Tap)
    requires
        status_good(m, reply, port),
        m.stage == (FlashStage::Status { of: Wait::Feature }),
    ensures
        ({
            let r = m.resume(reply);
            &&& r.stage == FlashStage::VerifyFeature
            &&& r.erase_only == m.erase_only
            &&& r.jed == m.jed
            &&& waits(port, r)
            &&& so_far(port, r) == so_far(port, m).zeros(32).pause(8).order(0xe7)
        }),
{
    lemma_ready(m, reply, port);
}

/// The feature bits are programmed if the feature row is as it was written.
pub proof fn law_feature_checked(m: Flash, reply: Seq<u8>, port: Tap)
    requires
        waits(port, m),
        m.stage == FlashStage::VerifyFeature,
        complete(m.jed),
    ensures
        ({
            let r = m.resume(reply);
            let read = so_far(port, m).zeros(64).pause(8);
            &&& r.erase_only == m.erase_only
            &&& r.jed == m.jed
            &&& if says(reply, m.jed.feature) {
                &&& r.stage == (FlashStage::Busy { of: Wait::Feabits })
                &&& waits(port, r)
                &&& so_far(port, r) == read.order(0xf8).data(m.jed.feabits).pause(8).order(0xf0)
            } else {
                &&& r.stage == (FlashStage::Failed { error: FpgaError::FeatureRow })
                &&& so_far(port, r) == read
            }
        }),
{
    lemma_says(reply, m.jed.feature);
}

/// The feature bits are read when they were programmed.
pub proof fn law_feature_bits_read_told(m: Flash, reply: Seq<u8>, port: Tap)
    requires
        status_good(m, reply, port),
        m.stage == (FlashStage::Status { of: Wait::Feabits }),
    ensures
        ({
            let r = m.resume(reply);
            &&& r.stage == FlashStage::VerifyFeabits
            &&& r.erase_only == m.erase_only
            &&& r.jed == m.jed
            &&& waits(port, r)
            &&& so_far(port, r) == so_far(port, m).zeros(32).pause(8).order(0xfb).pause(8)
        }),
{
    lemma_ready(m, reply, port);
}

/// From rest, the end of the programming tells the device that programming is done, gives it time,
/// and asks whether it is busy.
pub proof fn law_done_told(m: Flash, port: Tap)
    requires
        device::at_rest(port, m.jtag),
    ensures
        ({
            let r = m.program_done();
            &&& r.stage == (FlashStage::Busy { of: Wait::Done })
            &&& r.erase_only == m.erase_only
            &&& r.jed == m.jed
            &&& waits(port, r)
            &&& so_far(port, r) == so_far(port, m).order(0x5e).pause(1000).order(0xf0)
        }),
{
}

/// The device is told that programming is done if the feature bits are as they were written.
pub proof fn law_feature_bits_checked(m: Flash, reply: Seq<u8>, port: Tap)
    requires
        waits(port, m),
        m.stage == FlashStage::VerifyFeabits,
        complete(m.jed),
    ensures
        ({
            let r = m.resume(reply);
            let read = so_far(port, m).zeros(16);
            &&& r.erase_only == m.erase_only
            &&& r.jed == m.jed
            &&& if says(reply, m.jed.feabits) {
                &&& r.stage == (FlashStage::Busy { of: Wait::Done })
                &&& waits(port, r)
                &&& so_far(port, r) == read.order(0x5e).pause(1000).order(0xf0)
            } else {
                &&& r.stage == (FlashStage::Failed { error: FpgaError::Feabits })
                &&& so_far(port, r) == read
            }
        }),
{
    lemma_says(reply, m.jed.feabits);
}

/// At the end the device leaves the configuration mode and loads what was programmed; every clock
/// is sent.
pub proof fn law_end_told(m: Flash, reply: Seq<u8>, port: Tap)
    requires
        status_good(m, reply, port),
        m.stage == (FlashStage::Status { of: Wait::Done }),
    ensures
        ({
            let r = m.resume(reply);
            &&& r.stage == FlashStage::Finished
            &&& r.erase_only == m.erase_only
            &&& r.jed == m.jed
            &&& r.jtag.pending.len() == 0
            &&& so_far(port, r) == so_far(port, m).zeros(32).pause(8).order(0x26).pause(8).order(
                0xff,
            ).pause(100).order(0x79).pause(8).order(0xff).pause(100)
        }),
{
    lemma_ready(m, reply, port);
}

/// A step ends a session if and only if the session has ended, and fails if and only if it has
/// failed. The reply has four of the bits that were asked for in each of its bytes.
pub proof fn law_step_outcome(stage: FlashStage)
    ensures
        match stage {
            FlashStage::Failed { error } => flash::outcome(stage) == Err::<SessionStep, FpgaError>(
                error,
            ),
            FlashStage::Finished => flash::outcome(stage) == Ok::<SessionStep, FpgaError>(
                SessionStep::Finished,
            ),
            _ => flash::outcome(stage) == Ok::<SessionStep, FpgaError>(SessionStep::Wait)
                && usb::reply_size(flash::samples(stage)) == (bits_asked(stage) + 3) / 4,
        },
{
}

} // verus!
