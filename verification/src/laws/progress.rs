//! What the user is told while the flash memory is programmed.

use vstd::prelude::*;

use crate::flash;
use crate::flash::{Flash, FlashStage, Wait};
use crate::jed::Jed;
use crate::jtag::Jtag;
use crate::laws::session;
use crate::usb;
use crate::usb::Act;

verus! {

/// The messages to the user among some actions, in order.
pub open spec fn shown(bus: Seq<Act>) -> Seq<Seq<char>>
    decreases bus.len(),
{
    if bus.len() == 0 {
        Seq::empty()
    } else {
        let before = shown(bus.drop_last());
        match bus.last() {
            Act::Print { text } => before.push(text),
            _ => before,
        }
    }
}

broadcast proof fn lemma_act(j: Jtag, act: Act)
    ensures
        #[trigger] shown(j.act(act).bus) == (match act {
            Act::Print { text } => shown(j.bus).push(text),
            _ => shown(j.bus),
        }),
{
    assert(j.act(act).bus.drop_last() =~= j.bus);
}

broadcast proof fn lemma_clocks(j: Jtag, s: Seq<u8>)
    ensures
        #[trigger] shown(j.clks(s).bus) == shown(j.bus),
    decreases s.len(),
{
    if s.len() > 0 {
        let n = j.clks(s.drop_last());
        let pending = n.pending.push(s.last());
        lemma_clocks(j, s.drop_last());
        assert(n.bus.push(usb::jtag_out(pending)).drop_last() =~= n.bus);
    }
}

broadcast proof fn lemma_sync(j: Jtag)
    ensures
        #[trigger] shown(j.sync().bus) == shown(j.bus),
{
    assert(j.bus.push(usb::jtag_out(j.pending)).drop_last() =~= j.bus);
}

broadcast proof fn lemma_read(j: Jtag, n: nat)
    ensures
        #[trigger] shown(j.read_dr(n).bus) == shown(j.bus),
{
    broadcast use lemma_act, lemma_clocks, lemma_sync;

}

broadcast proof fn lemma_end_read(j: Jtag)
    ensures
        #[trigger] shown(j.end_read().bus) == shown(j.bus),
{
    broadcast use lemma_clocks;

}

/// Programming begins with a message, and erasing without one.
pub proof fn law_begin_shown(bus: Seq<Act>, erase_only: bool, jed: Jed)
    ensures
        shown(flash::begun(bus, erase_only, jed).jtag.bus) == (if erase_only {
            shown(bus)
        } else {
            shown(bus).push("Erasing flash\n"@)
        }),
{
    broadcast use lemma_act, lemma_clocks, lemma_read;

}

/// What is shown when the programming of row `row` is next: nothing, but at the end of the rows
/// that they are verified, and if there are none, that the feature row follows.
spec fn before_row(jed: Jed, row: int) -> Seq<Seq<char>> {
    if row < session::row_count(jed) {
        Seq::empty()
    } else {
        seq!["\n"@, "Verifying configuration data\n"@] + before_check(jed, 0)
    }
}

/// What is shown when row `row` is read back next: nothing, but at the end of the rows that the
/// feature row follows.
spec fn before_check(jed: Jed, row: int) -> Seq<Seq<char>> {
    if row < session::row_count(jed) {
        Seq::empty()
    } else {
        seq!["Programming and verifying Feature Row\n"@]
    }
}

proof fn lemma_check_shown(m: Flash, row: int)
    ensures
        shown(m.verify_row(row).jtag.bus) == shown(m.jtag.bus) + before_check(m.jed, row),
{
    broadcast use lemma_act, lemma_clocks, lemma_read;

    assert(shown(m.verify_row(row).jtag.bus) =~= shown(m.jtag.bus) + before_check(m.jed, row));
}

proof fn lemma_row_shown(m: Flash, row: int)
    ensures
        shown(m.program_row(row).jtag.bus) == shown(m.jtag.bus) + before_row(m.jed, row),
{
    broadcast use lemma_act, lemma_clocks, lemma_read;

    if row < m.rows() {
        assert(shown(m.program_row(row).jtag.bus) =~= shown(m.jtag.bus));
    } else {
        let n = m.act(flash::print("\n"@)).act(
            flash::print("Verifying configuration data\n"@),
        ).clks(crate::jtag::ir_clocks(crate::fpga::LSC_INIT_ADDRESS)).clks(
            crate::jtag::idle(8),
        ).clks(crate::jtag::ir_clocks(crate::fpga::LSC_READ_INCR_NV)).clks(crate::jtag::idle(8));
        assert(m.program_row(row) == n.verify_row(0));
        lemma_check_shown(n, 0);
        assert(shown(n.jtag.bus) == shown(m.jtag.bus).push("\n"@).push(
            "Verifying configuration data\n"@,
        ));
        assert(shown(m.jtag.bus).push("\n"@).push("Verifying configuration data\n"@)
            + before_check(m.jed, 0) =~= shown(m.jtag.bus) + before_row(m.jed, row));
    }
}

/// What a good status shows the user: that programming begins, a point for every 256 rows from the
/// first on, and what follows the rows.
pub open spec fn news(m: Flash) -> Seq<Seq<char>> {
    let rows = session::row_count(m.jed);
    match m.stage {
        FlashStage::Status { of: Wait::Erase } => if m.erase_only {
            Seq::empty()
        } else if rows > 0 {
            seq!["Programming configuration data \n"@]
        } else {
            seq![
                "Programming configuration data \n"@,
                "\n"@,
                "Verifying configuration data\n"@,
                "Programming and verifying Feature Row\n"@,
            ]
        },
        FlashStage::Status { of: Wait::Row { row } } => (if row as int % 256 == 0 {
            seq!["."@]
        } else {
            Seq::empty()
        }) + (if row + 1 < rows {
            Seq::empty()
        } else {
            seq!["\n"@, "Verifying configuration data\n"@]
        }),
        _ => Seq::empty(),
    }
}

/// The user sees the news, and nothing of what the device is asked in between.
pub proof fn law_status_shown(m: Flash, reply: Seq<u8>)
    requires
        m.stage is Busy || m.stage is Status,
        m.stage matches FlashStage::Status { of: Wait::Row { row } } ==> row < session::row_count(
            m.jed,
        ),
    ensures
        shown(m.resume(reply).jtag.bus) == shown(m.jtag.bus) + (if m.stage is Busy
            || session::status_busy(reply) || session::status_fail(reply) {
            Seq::empty()
        } else {
            news(m)
        }),
{
    broadcast use lemma_act, lemma_clocks, lemma_read, lemma_end_read, lemma_sync;

    session::lemma_nibbles(usb::byte_at(reply, 2), usb::byte_at(reply, 3));
    let empty = Seq::<Seq<char>>::empty();
    assert(shown(m.jtag.bus) + empty =~= shown(m.jtag.bus));
    let n = m.end_read().clks(crate::jtag::idle(8));
    assert(shown(n.jtag.bus) == shown(m.jtag.bus));
    if m.stage is Status && !session::status_busy(reply) && !session::status_fail(reply) {
        match m.stage->Status_of {
            Wait::Erase => {
                let p = n.act(flash::print("Programming configuration data \n"@)).clks(
                    crate::jtag::ir_clocks(crate::fpga::LSC_INIT_ADDRESS),
                ).clks(crate::jtag::idle(8));
                lemma_row_shown(p, 0);
                if !m.erase_only {
                    assert(m.resume(reply) == p.program_row(0));
                    assert(shown(m.jtag.bus).push("Programming configuration data \n"@)
                        + before_row(m.jed, 0) =~= shown(m.jtag.bus) + news(m));
                }
            },
            Wait::Row { row } => {
                let p = n.act(flash::print("."@));
                lemma_row_shown(p, row + 1);
                lemma_row_shown(n, row + 1);
                if row % 256 == 0 {
                    assert(shown(m.jtag.bus).push("."@) + before_row(m.jed, row + 1) =~= shown(
                        m.jtag.bus,
                    ) + news(m));
                } else {
                    assert(shown(m.jtag.bus) + before_row(m.jed, row + 1) =~= shown(m.jtag.bus)
                        + news(m));
                }
            },
            _ => {},
        }
    }
}

/// When something was read back as it was written, the user is told what follows.
pub proof fn law_check_shown(m: Flash, reply: Seq<u8>)
    requires
        m.stage is VerifyRow || m.stage is VerifyFeature || m.stage is VerifyFeabits,
        session::complete(m.jed),
        m.stage matches FlashStage::VerifyRow { row } ==> row < session::row_count(m.jed),
    ensures
        shown(m.resume(reply).jtag.bus) == shown(m.jtag.bus) + (match m.stage {
            FlashStage::VerifyRow { row } => if row + 1 == session::row_count(m.jed)
                && session::says(reply, session::row_bytes(m.jed, row as int)) {
                seq!["Programming and verifying Feature Row\n"@]
            } else {
                Seq::empty()
            },
            FlashStage::VerifyFeature => if session::says(reply, m.jed.feature) {
                seq!["Programming and verifying FEABITS\n"@]
            } else {
                Seq::empty()
            },
            _ => if session::says(reply, m.jed.feabits) {
                seq!["Exiting programming mode\n"@]
            } else {
                Seq::empty()
            },
        }),
{
    broadcast use lemma_act, lemma_clocks, lemma_read, lemma_end_read;

    let before = shown(m.jtag.bus);
    assert(before + Seq::<Seq<char>>::empty() =~= before);
    let n = m.end_read().clks(crate::jtag::idle(8));
    assert(shown(n.jtag.bus) == before);
    match m.stage {
        FlashStage::VerifyRow { row } => {
            let bytes = session::row_bytes(m.jed, row as int);
            assert(bytes.len() == 16);
            session::lemma_says(reply, bytes);
            lemma_check_shown(n, row + 1);
        },
        FlashStage::VerifyFeature => {
            session::lemma_says(reply, m.jed.feature);
            assert(before.push("Programming and verifying FEABITS\n"@) =~= before + seq![
                "Programming and verifying FEABITS\n"@,
            ]);
        },
        _ => {
            session::lemma_says(reply, m.jed.feabits);
            assert(before.push("Exiting programming mode\n"@) =~= before + seq![
                "Exiting programming mode\n"@,
            ]);
        },
    }
}

} // verus!
