//! What a programming session leaves in the FPGA.

use vstd::prelude::*;

use crate::flash;
use crate::flash::{Flash, FlashStage, Wait};
use crate::fpga;
use crate::jed::Jed;
use crate::laws::device;
use crate::laws::device::Word;
use crate::laws::session;
use crate::laws::tap::Tap;
use crate::laws::uploads;
use crate::usb::Act;

verus! {

/// What an FPGA can be told to configure.
pub enum Mode {
    Off,
    Sram,
    Flash,
}

/// The parts of an FPGA that a programming session is about.
pub struct Chip {
    /// The last instruction.
    pub instruction: int,
    pub mode: Mode,
    /// The row that the next data is for.
    pub address: int,
    pub rows: Map<int, Seq<u8>>,
    pub feature: Option<Seq<u8>>,
    pub feabits: Option<Seq<u8>>,
    /// The feature bits were read since they were programmed.
    pub checked: bool,
    /// The contents of the flash memory count as a whole configuration.
    pub done: bool,
    /// The FPGA runs what its flash memory holds.
    pub loaded: bool,
}

/// The number that eight bits stand for, the lowest one first.
pub open spec fn code(bits: Seq<u8>) -> int {
    bits[0] + 2 * bits[1] + 4 * bits[2] + 8 * bits[3] + 16 * bits[4] + 32 * bits[5] + 64 * bits[6]
        + 128 * bits[7]
}

/// What an instruction does.
pub open spec fn obeys(c: Chip, instruction: int) -> Chip {
    let n = Chip { instruction, ..c };
    if instruction == 0x46 {
        Chip { address: 0, ..n }
    } else if instruction == 0x5e {
        Chip { done: n.mode is Flash && n.checked, ..n }
    } else if instruction == 0x26 {
        Chip { mode: Mode::Off, ..n }
    } else if instruction == 0x79 {
        Chip { loaded: n.mode is Off && n.done, ..n }
    } else {
        n
    }
}

/// What data does, after the last instruction.
pub open spec fn takes(c: Chip, bits: Seq<u8>) -> Chip {
    if c.instruction == 0xc6 {
        Chip {
            mode: if code(bits) == 0x08 {
                Mode::Flash
            } else {
                Mode::Sram
            },
            ..c
        }
    } else if c.instruction == 0x0e && code(bits) == 0x0e && c.mode is Flash {
        Chip {
            rows: Map::empty(),
            feature: None,
            feabits: None,
            checked: false,
            done: false,
            loaded: false,
            ..c
        }
    } else if c.instruction == 0x70 && c.mode is Flash {
        Chip { rows: c.rows.insert(c.address, bits), address: c.address + 1, ..c }
    } else if c.instruction == 0xe4 && c.mode is Flash {
        Chip { feature: Some(bits), ..c }
    } else if c.instruction == 0xf8 && c.mode is Flash {
        Chip { feabits: Some(bits), checked: false, ..c }
    } else if c.instruction == 0xfb && bits.len() == 16 {
        Chip { checked: true, ..c }
    } else {
        c
    }
}

/// What a word does.
pub open spec fn hear(c: Chip, w: Word) -> Chip {
    match w {
        Word::Instruction { bits } => obeys(c, code(bits)),
        Word::Data { bits } => takes(c, bits),
        Word::Tick => c,
    }
}

/// The FPGA after some words.
pub open spec fn after(c: Chip, words: Seq<Word>) -> Chip
    decreases words.len(),
{
    if words.len() == 0 {
        c
    } else {
        hear(after(c, words.drop_last()), words.last())
    }
}

/// The instructions were heard, in this order, after the first `n` words.
pub open spec fn in_order(words: Seq<Word>, n: int, codes: Seq<u8>) -> bool
    decreases words.len(),
{
    if codes.len() == 0 {
        true
    } else if words.len() <= n || words.len() == 0 {
        false
    } else {
        ||| in_order(words.drop_last(), n, codes)
        ||| words.last() == device::order(codes.last()) && in_order(
            words.drop_last(),
            n,
            codes.drop_last(),
        )
    }
}

proof fn lemma_code(b: u8)
    ensures
        code(device::bits_of(seq![b])) == b,
{
    let bits = device::bits_of(seq![b]);
    assert(bits[0] == device::digit(b as int, 0));
    assert(bits[1] == device::digit(b as int, 1));
    assert(bits[2] == device::digit(b as int, 2));
    assert(bits[3] == device::digit(b as int, 3));
    assert(bits[4] == device::digit(b as int, 4));
    assert(bits[5] == device::digit(b as int, 5));
    assert(bits[6] == device::digit(b as int, 6));
    assert(bits[7] == device::digit(b as int, 7));
    assert(b % 2 + 2 * (b / 2 % 2) + 4 * (b / 4 % 2) + 8 * (b / 8 % 2) + 16 * (b / 16 % 2) + 32 * (b
        / 32 % 2) + 64 * (b / 64 % 2) + 128 * (b / 128 % 2) == b) by (bit_vector);
}

broadcast proof fn lemma_order(c: Chip, words: Seq<Word>, b: u8)
    ensures
        #[trigger] after(c, words.push(device::order(b))) == obeys(after(c, words), b as int),
{
    assert(words.push(device::order(b)).drop_last() =~= words);
    lemma_code(b);
}

broadcast proof fn lemma_data(c: Chip, words: Seq<Word>, bytes: Seq<u8>)
    ensures
        #[trigger] after(c, words.push(device::data(bytes))) == takes(
            after(c, words),
            device::bits_of(bytes),
        ),
{
    assert(words.push(device::data(bytes)).drop_last() =~= words);
}

broadcast proof fn lemma_zeros(c: Chip, words: Seq<Word>, n: nat)
    ensures
        #[trigger] after(c, words.push(device::zeros(n))) == takes(
            after(c, words),
            Seq::new(n, |i: int| 0u8),
        ),
{
    assert(words.push(device::zeros(n)).drop_last() =~= words);
}

broadcast proof fn lemma_pause(c: Chip, words: Seq<Word>, n: nat)
    ensures
        #[trigger] after(c, words + device::pause(n)) == after(c, words),
    decreases n,
{
    if n == 0 {
        assert(words + device::pause(n) =~= words);
    } else {
        let before = words + device::pause((n - 1) as nat);
        lemma_pause(c, words, (n - 1) as nat);
        assert((words + device::pause(n)).drop_last() =~= before);
    }
}

broadcast proof fn lemma_still_in_order(words: Seq<Word>, w: Word, n: int, codes: Seq<u8>)
    requires
        in_order(words, n, codes),
        n <= words.len(),
    ensures
        #[trigger] in_order(words.push(w), n, codes),
{
    assert(words.push(w).drop_last() =~= words);
}

broadcast proof fn lemma_pause_in_order(words: Seq<Word>, ticks: nat, n: int, codes: Seq<u8>)
    requires
        in_order(words, n, codes),
        n <= words.len(),
    ensures
        #[trigger] in_order(words + device::pause(ticks), n, codes),
    decreases ticks,
{
    if ticks == 0 {
        assert(words + device::pause(ticks) =~= words);
    } else {
        lemma_pause_in_order(words, (ticks - 1) as nat, n, codes);
        assert((words + device::pause(ticks)).drop_last() =~= words + device::pause(
            (ticks - 1) as nat,
        ));
    }
}

proof fn lemma_next_in_order(words: Seq<Word>, n: int, codes: Seq<u8>, b: u8)
    requires
        in_order(words, n, codes),
        n <= words.len(),
    ensures
        in_order(words.push(device::order(b)), n, codes.push(b)),
{
    assert(words.push(device::order(b)).drop_last() =~= words);
    assert(codes.push(b).drop_last() =~= codes);
}

/// The flash memory holds the first rows of a file, and no other.
pub open spec fn holds_rows(c: Chip, jed: Jed, count: int) -> bool {
    &&& forall|k: int| #[trigger] c.rows.contains_key(k) <==> 0 <= k < count
    &&& forall|k: int|
        0 <= k < count ==> #[trigger] c.rows[k] == device::bits_of(session::row_bytes(jed, k))
}

/// How much of a file the flash memory holds.
pub open spec fn holds_parts(c: Chip, jed: Jed, rows: int, feature: bool, feabits: bool) -> bool {
    &&& holds_rows(c, jed, rows)
    &&& c.feature == (if feature {
        Some(device::bits_of(jed.feature))
    } else {
        None
    })
    &&& c.feabits == (if feabits {
        Some(device::bits_of(jed.feabits))
    } else {
        None
    })
}

/// What the FPGA is like while something is waited for.
spec fn meanwhile(c: Chip, jed: Jed, of: Wait) -> bool {
    let all = session::row_count(jed);
    &&& c.mode is Flash
    &&& match of {
        Wait::Erase => holds_parts(c, jed, 0, false, false) && !c.done,
        Wait::Row { row } => row < all && holds_parts(c, jed, row + 1, false, false) && c.address
            == row + 1 && !c.done,
        Wait::Feature => holds_parts(c, jed, all, true, false) && !c.done,
        Wait::Feabits => holds_parts(c, jed, all, true, true) && !c.done,
        Wait::Done => holds_parts(c, jed, all, true, true) && c.done,
    }
}

/// What the FPGA is like in a stage of a session.
spec fn in_step(c: Chip, m: Flash) -> bool {
    let all = session::row_count(m.jed);
    match m.stage {
        FlashStage::Busy { of } => c.instruction == 0xf0 && meanwhile(c, m.jed, of),
        FlashStage::Status { of } => c.instruction == 0x3c && meanwhile(c, m.jed, of),
        FlashStage::VerifyRow { row } => c.instruction == 0x73 && row < all && holds_parts(
            c,
            m.jed,
            all,
            false,
            false,
        ) && c.mode is Flash && !c.done,
        FlashStage::VerifyFeature => c.instruction == 0xe7 && holds_parts(
            c,
            m.jed,
            all,
            true,
            false,
        ) && c.mode is Flash && !c.done,
        FlashStage::VerifyFeabits => c.instruction == 0xfb && holds_parts(
            c,
            m.jed,
            all,
            true,
            true,
        ) && c.mode is Flash && !c.done,
        FlashStage::Finished => holds_parts(c, m.jed, all, true, true) && c.mode is Off && c.done
            && c.loaded,
        FlashStage::Failed { .. } => true,
    }
}

/// Which instructions were told by a stage of a session, among others.
spec fn told_by(stage: FlashStage) -> Seq<u8> {
    match stage {
        FlashStage::VerifyFeabits => seq![0xfbu8],
        FlashStage::Busy { of: Wait::Done } => seq![0xfbu8, 0x5e],
        FlashStage::Status { of: Wait::Done } => seq![0xfbu8, 0x5e],
        FlashStage::Finished => seq![0xfbu8, 0x5e, 0x26, 0x79],
        _ => Seq::empty(),
    }
}

/// What holds of a programming session and the FPGA, where the session began after `n` words.
spec fn goes_well(m: Flash, port: Tap, c: Chip, n: int) -> bool {
    let words = session::so_far(port, m).words;
    &&& !m.erase_only
    &&& session::complete(m.jed)
    &&& m.stage !is Finished && m.stage !is Failed ==> session::waits(port, m)
    &&& m.stage !is Failed ==> in_step(after(c, words), m) && n <= words.len() && in_order(
        words,
        n,
        told_by(m.stage),
    )
}

proof fn lemma_begun(bus: Seq<Act>, jed: Jed, port: Tap, c: Chip)
    requires
        device::at_rest(port, fpga::fresh(bus)),
        session::complete(jed),
    ensures
        goes_well(
            flash::begun(bus, false, jed),
            port,
            c,
            device::hears(port, fpga::fresh(bus)).len() as int,
        ),
{
    broadcast use lemma_order, lemma_data, lemma_zeros, lemma_pause;

    session::law_begin_told(bus, false, jed, port);
    lemma_code(0x00);
    lemma_code(0x01);
    lemma_code(0x08);
    lemma_code(0x0e);
}

proof fn lemma_busy(m: Flash, reply: Seq<u8>, port: Tap, c: Chip, n: int)
    requires
        goes_well(m, port, c, n),
        m.stage is Busy,
    ensures
        goes_well(m.resume(reply), port, c, n),
{
    broadcast use lemma_order, lemma_zeros, lemma_pause, lemma_still_in_order;

    session::law_busy_told(m, reply, port);
}

proof fn lemma_status(m: Flash, reply: Seq<u8>, port: Tap, c: Chip, n: int)
    requires
        goes_well(m, port, c, n),
        m.stage is Status,
        m.stage->Status_of !is Done,
        m.stage->Status_of !is Feabits,
        m.stage->Status_of !is Row,
    ensures
        goes_well(m.resume(reply), port, c, n),
{
    broadcast use lemma_order, lemma_data, lemma_zeros, lemma_pause;

    if session::status_busy(reply) || session::status_fail(reply) {
        session::law_status_fails(m, reply, port);
    } else {
        match m.stage->Status_of {
            Wait::Erase => if session::row_count(m.jed) > 0 {
                session::law_first_row_told(m, reply, port);
            } else {
                session::law_no_rows_told(m, reply, port);
            },
            _ => {
                session::law_feature_read_told(m, reply, port);
            },
        }
    }
}

proof fn lemma_row_status(m: Flash, reply: Seq<u8>, port: Tap, c: Chip, n: int)
    requires
        goes_well(m, port, c, n),
        m.stage is Status,
        m.stage->Status_of is Row,
    ensures
        goes_well(m.resume(reply), port, c, n),
{
    broadcast use lemma_order, lemma_data, lemma_zeros, lemma_pause;

    let row = m.stage->Status_of->row;
    if session::status_busy(reply) || session::status_fail(reply) {
        session::law_status_fails(m, reply, port);
    } else if row + 1 < session::row_count(m.jed) {
        session::law_next_row_told(m, reply, port, row);
    } else {
        session::law_rows_read_told(m, reply, port, row);
    }
}

proof fn lemma_feabits_status(m: Flash, reply: Seq<u8>, port: Tap, c: Chip, n: int)
    requires
        goes_well(m, port, c, n),
        m.stage == (FlashStage::Status { of: Wait::Feabits }),
    ensures
        goes_well(m.resume(reply), port, c, n),
{
    broadcast use lemma_order, lemma_data, lemma_zeros, lemma_pause, lemma_pause_in_order;

    if session::status_busy(reply) || session::status_fail(reply) {
        session::law_status_fails(m, reply, port);
    } else {
        session::law_feature_bits_read_told(m, reply, port);
        let before = session::so_far(port, m).zeros(32).pause(8).words;
        lemma_next_in_order(before, n, Seq::empty(), 0xfb);
        assert(Seq::<u8>::empty().push(0xfb) =~= seq![0xfbu8]);
    }
}

proof fn lemma_done_status(m: Flash, reply: Seq<u8>, port: Tap, c: Chip, n: int)
    requires
        goes_well(m, port, c, n),
        m.stage == (FlashStage::Status { of: Wait::Done }),
    ensures
        goes_well(m.resume(reply), port, c, n),
{
    broadcast use {
        lemma_order,
        lemma_data,
        lemma_zeros,
        lemma_pause,
        lemma_pause_in_order,
        lemma_still_in_order,
    };

    if session::status_busy(reply) || session::status_fail(reply) {
        session::law_status_fails(m, reply, port);
    } else {
        session::law_end_told(m, reply, port);
        let before = session::so_far(port, m).zeros(32).pause(8);
        lemma_next_in_order(before.words, n, seq![0xfbu8, 0x5e], 0x26);
        assert(seq![0xfbu8, 0x5e].push(0x26) =~= seq![0xfbu8, 0x5e, 0x26]);
        let more = before.order(0x26).pause(8).order(0xff).pause(100);
        assert(in_order(more.words, n, seq![0xfbu8, 0x5e, 0x26]));
        lemma_next_in_order(more.words, n, seq![0xfbu8, 0x5e, 0x26], 0x79);
        assert(seq![0xfbu8, 0x5e, 0x26].push(0x79) =~= seq![0xfbu8, 0x5e, 0x26, 0x79]);
    }
}

proof fn lemma_read(m: Flash, reply: Seq<u8>, port: Tap, c: Chip, n: int)
    requires
        goes_well(m, port, c, n),
        m.stage is VerifyRow || m.stage is VerifyFeature,
    ensures
        goes_well(m.resume(reply), port, c, n),
{
    broadcast use lemma_order, lemma_data, lemma_zeros, lemma_pause;

    match m.stage {
        FlashStage::VerifyRow { row } => {
            session::law_row_checked(m, reply, port, row);
        },
        _ => {
            session::law_feature_checked(m, reply, port);
        },
    }
}

proof fn lemma_read_feabits(m: Flash, reply: Seq<u8>, port: Tap, c: Chip, n: int)
    requires
        goes_well(m, port, c, n),
        m.stage is VerifyFeabits,
    ensures
        goes_well(m.resume(reply), port, c, n),
{
    broadcast use {
        lemma_order,
        lemma_data,
        lemma_zeros,
        lemma_pause,
        lemma_pause_in_order,
        lemma_still_in_order,
    };

    session::law_feature_bits_checked(m, reply, port);
    let before = session::so_far(port, m).zeros(16);
    lemma_next_in_order(before.words, n, seq![0xfbu8], 0x5e);
    assert(seq![0xfbu8].push(0x5e) =~= seq![0xfbu8, 0x5e]);
}

proof fn lemma_goes_well(bus: Seq<Act>, jed: Jed, replies: Seq<Seq<u8>>, port: Tap, c: Chip)
    requires
        device::at_rest(port, fpga::fresh(bus)),
        session::complete(jed),
    ensures
        ({
            let r = uploads::flash_after(flash::begun(bus, false, jed), replies);
            &&& r.jed == jed
            &&& goes_well(r, port, c, device::hears(port, fpga::fresh(bus)).len() as int)
        }),
    decreases replies.len(),
{
    let m = flash::begun(bus, false, jed);
    let n = device::hears(port, fpga::fresh(bus)).len() as int;
    if replies.len() == 0 {
        session::law_begin_told(bus, false, jed, port);
        lemma_begun(bus, jed, port, c);
    } else {
        let p = uploads::flash_after(m, replies.drop_last());
        let reply = replies.last();
        lemma_goes_well(bus, jed, replies.drop_last(), port, c);
        assert(p.resume(reply).jed == p.jed);
        match p.stage {
            FlashStage::Busy { of } => lemma_busy(p, reply, port, c, n),
            FlashStage::Status { of } => match of {
                Wait::Row { row } => lemma_row_status(p, reply, port, c, n),
                Wait::Feabits => lemma_feabits_status(p, reply, port, c, n),
                Wait::Done => lemma_done_status(p, reply, port, c, n),
                _ => lemma_status(p, reply, port, c, n),
            },
            FlashStage::VerifyFeabits => lemma_read_feabits(p, reply, port, c, n),
            FlashStage::VerifyRow { row } => lemma_read(p, reply, port, c, n),
            FlashStage::VerifyFeature => lemma_read(p, reply, port, c, n),
            _ => {},
        }
    }
}

/// When programming is finished, the flash memory holds the rows, the feature row and the feature
/// bits of the file and nothing else, the device counts it as a whole configuration, has left the
/// configuration mode and runs it. This is so whatever the device held before.
pub proof fn law_flash_holds_file(
    bus: Seq<Act>,
    jed: Jed,
    replies: Seq<Seq<u8>>,
    port: Tap,
    c: Chip,
)
    requires
        device::at_rest(port, fpga::fresh(bus)),
        session::complete(jed),
        uploads::flash_after(flash::begun(bus, false, jed), replies).stage == FlashStage::Finished,
    ensures
        ({
            let m = uploads::flash_after(flash::begun(bus, false, jed), replies);
            let r = after(c, device::hears(port, m.jtag));
            &&& holds_parts(r, jed, session::row_count(jed), true, true)
            &&& r.done
            &&& r.mode is Off
            &&& r.loaded
        }),
{
    lemma_goes_well(bus, jed, replies, port, c);
}

/// Programming is finished only if the device was told, in this order, to read its feature bits,
/// that programming is done, to leave the configuration mode, and to load the configuration.
pub proof fn law_done_before_refresh(bus: Seq<Act>, jed: Jed, replies: Seq<Seq<u8>>, port: Tap)
    requires
        device::at_rest(port, fpga::fresh(bus)),
        session::complete(jed),
        uploads::flash_after(flash::begun(bus, false, jed), replies).stage == FlashStage::Finished,
    ensures
        in_order(
            device::hears(
                port,
                uploads::flash_after(flash::begun(bus, false, jed), replies).jtag,
            ),
            device::hears(port, fpga::fresh(bus)).len() as int,
            seq![0xfbu8, 0x5e, 0x26, 0x79],
        ),
{
    let c = Chip {
        instruction: 0,
        mode: Mode::Off,
        address: 0,
        rows: Map::empty(),
        feature: None,
        feabits: None,
        checked: false,
        done: false,
        loaded: false,
    };
    lemma_goes_well(bus, jed, replies, port, c);
}

/// The flash memory holds nothing.
pub open spec fn is_erased(c: Chip) -> bool {
    &&& c.rows == Map::<int, Seq<u8>>::empty()
    &&& c.feature is None
    &&& c.feabits is None
    &&& !c.done
}

/// A session that only erases never leaves the erased state again.
proof fn lemma_erased(bus: Seq<Act>, jed: Jed, replies: Seq<Seq<u8>>, port: Tap, c: Chip)
    requires
        device::at_rest(port, fpga::fresh(bus)),
    ensures
        ({
            let r = uploads::flash_after(flash::begun(bus, true, jed), replies);
            let chip = after(c, device::hears(port, r.jtag));
            &&& r.erase_only
            &&& is_erased(chip)
            &&& match r.stage {
                FlashStage::Busy { of } => of is Erase && session::waits(port, r)
                    && chip.instruction == 0xf0,
                FlashStage::Status { of } => of is Erase && session::waits(port, r)
                    && chip.instruction == 0x3c,
                FlashStage::Finished => true,
                FlashStage::Failed { .. } => true,
                _ => false,
            }
        }),
    decreases replies.len(),
{
    broadcast use lemma_order, lemma_data, lemma_zeros, lemma_pause;

    if replies.len() == 0 {
        session::law_begin_told(bus, true, jed, port);
        lemma_code(0x00);
        lemma_code(0x01);
        lemma_code(0x08);
        lemma_code(0x0e);
    } else {
        let p = uploads::flash_after(flash::begun(bus, true, jed), replies.drop_last());
        let reply = replies.last();
        lemma_erased(bus, jed, replies.drop_last(), port, c);
        if p.stage is Busy {
            session::law_busy_told(p, reply, port);
        } else if p.stage is Status {
            if session::status_busy(reply) || session::status_fail(reply) {
                session::law_status_fails(p, reply, port);
            } else {
                session::law_erasure_ends(p, reply, port);
            }
        }
    }
}

/// When an erasure is finished, or has failed, the flash memory holds nothing, whatever it held
/// before.
pub proof fn law_flash_erased(bus: Seq<Act>, jed: Jed, replies: Seq<Seq<u8>>, port: Tap, c: Chip)
    requires
        device::at_rest(port, fpga::fresh(bus)),
    ensures
        is_erased(
            after(
                c,
                device::hears(
                    port,
                    uploads::flash_after(flash::begun(bus, true, jed), replies).jtag,
                ),
            ),
        ),
{
    lemma_erased(bus, jed, replies, port, c);
}

} // verus!
