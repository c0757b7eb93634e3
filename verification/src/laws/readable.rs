//! The file of any capture can be read back, block by block.

use vstd::prelude::*;
use vstd::utf8::*;

use crate::capture::{CaptureSpeed, CaptureTrigger};
use crate::endian;
use crate::laws::blocks;
use crate::laws::invariants;
use crate::messages;
use crate::model;
use crate::model::{Fold, Model, Stage, LS_INVALID, MAX_DATA_SIZE};
use crate::pcapng;
use crate::pcapng::Record;
use crate::text;

verus! {

/// More than any time in a capture file.
pub open spec fn end_of_time() -> int {
    0x1_0000_0000_0000_0000
}

/// A record of the kind that a capture makes: its time is within the file format, and it is not
/// long.
pub open spec fn modest(r: Record) -> bool {
    match r {
        Record::Section => true,
        Record::Interface { link_type, name, description } => name.len() <= 200 && description.len()
            <= 200,
        Record::Packet { ts, data } => 0 <= ts < end_of_time() && data.len() <= MAX_DATA_SIZE,
        Record::Text { ts, text } => 0 <= ts < end_of_time() && text.len() <= 200,
        Record::Flush => true,
    }
}

/// Numbers of few digits.
proof fn lemma_dec_len(n: nat)
    ensures
        n < 10 ==> text::dec(n).len() == 1,
        n < 100_000 ==> text::dec(n).len() <= 5,
        n < 10_000_000_000 ==> text::dec(n).len() <= 10,
{
    reveal_with_fuel(text::dec, 11);
}

proof fn lemma_utf8_len(s: Seq<char>)
    ensures
        encode_utf8(s).len() <= 4 * s.len(),
    decreases s.len(),
{
    if s.len() > 0 {
        lemma_utf8_len(s.drop_first());
    }
}

/// A modest record fits in a block.
proof fn lemma_modest_fits(r: Record)
    requires
        modest(r),
    ensures
        blocks::fits(r),
{
    broadcast use {endian::lemma_le16_len, endian::lemma_le32_len};

    lemma_utf8_len(""@);
    reveal_strlit("");
    match r {
        Record::Section => {
            reveal_strlit("USB Sniffer by Alex Taradov");
            lemma_utf8_len("USB Sniffer by Alex Taradov"@);
        },
        Record::Interface { link_type, name, description } => {
            lemma_utf8_len(name);
            lemma_utf8_len(description);
        },
        Record::Text { ts, text } => {
            lemma_utf8_len(text);
        },
        _ => {},
    }
}

/// Doubling stops below twice the bound.
proof fn lemma_normalized(num: nat, one: nat, d: nat)
    requires
        0 < one,
        0 < d,
        num < d * 0x100_0000,
    ensures
        text::normalized(num, one, d).0 < d * 0x100_0000,
        text::normalized(num, one, d).1 > 0,
    decreases
        if num < d * 0x80_0000 {
            d * 0x80_0000 - num
        } else {
            0
        },
{
    if num != 0 && num < d * 0x80_0000 {
        lemma_normalized(2 * num, 2 * one, d);
    }
}

proof fn lemma_single_hundredths(n: nat, d: nat)
    requires
        0 < d,
        n < d * 0x100_0000,
    ensures
        text::single_hundredths(n, d) < 10_000_000_000,
{
    lemma_normalized(n, 1, d);
    let scaled = text::normalized(n, 1, d);
    assert(scaled.0 / d < 0x100_0000) by (nonlinear_arith)
        requires
            scaled.0 < d * 0x100_0000,
            0 < d,
    ;
    let significand = text::round_half_even(scaled.0, d);
    let one = scaled.1;
    assert((significand * 100) / one <= significand * 100) by (nonlinear_arith)
        requires
            one > 0,
    ;
}

proof fn lemma_two_decimals(hundredths: nat)
    requires
        hundredths < 10_000_000_000,
    ensures
        text::two_decimals(hundredths).len() <= 13,
{
    reveal_strlit(".");
    lemma_dec_len(hundredths / 100);
}

proof fn lemma_line_state_len(ls: int, low_speed: bool, delta: int)
    requires
        0 <= delta,
    ensures
        messages::line_state(ls, low_speed, delta).len() <= 200,
{
    reveal_strlit("Line state: ");
    reveal_strlit("SE0");
    reveal_strlit("Undefined (DP=");
    reveal_strlit(" / DM=");
    reveal_strlit(")");
    reveal_strlit("J");
    reveal_strlit("K");
    reveal_strlit(" [both]");
    reveal_strlit(" [single]");
    reveal_strlit(" (");
    reveal_strlit(" ns)");
    reveal_strlit(" us)");
    reveal_strlit(" ms)");
    lemma_dec_len((ls % 4) as nat);
    lemma_dec_len((ls / 4 % 4) as nat);
    if delta < messages::TIME_US {
        lemma_two_decimals((delta * 100) as nat);
    } else if delta < messages::TIME_MS {
        lemma_single_hundredths(delta as nat, messages::TIME_US as nat);
        lemma_two_decimals(text::single_hundredths(delta as nat, messages::TIME_US as nat));
    } else if delta < messages::LS_DELTA_THRESHOLD {
        lemma_single_hundredths(delta as nat, messages::TIME_MS as nat);
        lemma_two_decimals(text::single_hundredths(delta as nat, messages::TIME_MS as nat));
    }
}

proof fn lemma_hex_dump_len(bytes: Seq<u8>)
    ensures
        messages::hex_dump(bytes).len() == 3 * bytes.len(),
    decreases bytes.len(),
{
    if bytes.len() > 0 {
        reveal_strlit(" ");
        lemma_hex_dump_len(bytes.drop_last());
        reveal_with_fuel(text::hex_fixed, 3);
    }
}

/// A capture whose records, and the entries that wait to be recorded, are modest.
pub open spec fn all_modest(m: Model) -> bool {
    &&& forall|i: int| 0 <= i < m.log.len() ==> modest(#[trigger] m.log[i])
    &&& forall|i: int| 0 <= i < m.fold.len() ==> modest_entry(#[trigger] m.fold[i])
    &&& 0 <= m.fold_count <= 8000
    &&& 0 <= m.ts < end_of_time()
    &&& 0 <= m.saved_ts < end_of_time()
}

/// An entry that waits is modest.
pub open spec fn modest_entry(entry: Fold) -> bool {
    match entry {
        Fold::Packet { ts, data } => modest(Record::Packet { ts, data }),
        Fold::Keepalive { ts, delta } => 0 <= ts < end_of_time(),
    }
}

broadcast proof fn lemma_str_modest(m: Model, ts: int, text: Seq<char>)
    requires
        all_modest(m),
        0 <= ts < end_of_time(),
        text.len() <= 200,
    ensures
        all_modest(#[trigger] m.write_str(ts, text)),
{
}

broadcast proof fn lemma_packet_modest(m: Model, ts: int, data: Seq<u8>)
    requires
        all_modest(m),
        0 <= ts < end_of_time(),
        data.len() <= MAX_DATA_SIZE,
    ensures
        all_modest(#[trigger] m.write_packet(ts, data)),
{
}

broadcast proof fn lemma_line_state_modest(m: Model)
    requires
        all_modest(m),
    ensures
        all_modest(#[trigger] m.line_state_event()),
{
    lemma_line_state_len(
        m.saved_ls,
        m.speed == CaptureSpeed::LowSpeed,
        model::elapsed(m.ts, m.saved_ts),
    );
}

proof fn lemma_folds_modest(m: Model, entries: Seq<Fold>)
    requires
        all_modest(m),
        forall|i: int| 0 <= i < entries.len() ==> modest_entry(#[trigger] entries[i]),
    ensures
        all_modest(m.write_folds(entries)),
    decreases entries.len(),
{
    if entries.len() > 0 {
        reveal_strlit("Keep-alive");
        lemma_folds_modest(m, entries.drop_last());
        assert(modest_entry(entries[entries.len() - 1]));
    }
}

broadcast proof fn lemma_stop_folding_modest(m: Model)
    requires
        all_modest(m),
    ensures
        all_modest(#[trigger] m.stop_folding()),
{
    reveal(Model::stop_folding);
    reveal_strlit("Folded empty frame");
    reveal_strlit("Folded ");
    reveal_strlit(" empty frames");
    lemma_dec_len(m.fold_count as nat);
    let unfolded = Model { fold: Seq::empty(), fold_count: 0, ..m };
    let counted = if m.fold_count > 0 {
        unfolded.write_str(m.ts, messages::folded(m.fold_count))
    } else {
        unfolded
    };
    lemma_folds_modest(counted, m.fold);
}

broadcast proof fn lemma_info_modest(m: Model, ts: int, text: Seq<char>)
    requires
        all_modest(m),
        0 <= ts < end_of_time(),
        text.len() <= 200,
    ensures
        all_modest(#[trigger] m.capture_info(ts, text)),
{
    broadcast use {lemma_str_modest, lemma_line_state_modest, lemma_stop_folding_modest};

    reveal(Model::capture_info);
    model::lemma_stop_folding(m.line_state_event());
}

broadcast proof fn lemma_limit_modest(m: Model)
    requires
        all_modest(m),
    ensures
        all_modest(#[trigger] m.check_capture_limit()),
{
    broadcast use lemma_info_modest;

    reveal_strlit("Capture limit reached");
    assert(all_modest(Model { limit: 0, ..m }));
    model::lemma_capture_info(Model { limit: 0, ..m }, m.ts, "Capture limit reached"@);
}

broadcast proof fn lemma_count_modest(m: Model, limit: int)
    requires
        all_modest(m),
        m.fold_count < 8000,
    ensures
        all_modest(#[trigger] m.count_folded(limit)),
{
    broadcast use lemma_stop_folding_modest;

    assert(all_modest(Model { fold_count: m.fold_count + 1, fold: Seq::empty(), ..m }));
}

broadcast proof fn lemma_entry_modest(m: Model, entry: Fold)
    requires
        all_modest(m),
        modest_entry(entry),
    ensures
        all_modest(#[trigger] m.fold_entry(entry)),
{
}

broadcast proof fn lemma_keepalive_modest(m: Model, ts: int, delta: int)
    requires
        all_modest(m),
        m.fold_count < 8000,
        0 <= ts < end_of_time(),
    ensures
        all_modest(#[trigger] m.keepalive_event(ts, delta)),
{
    broadcast use {lemma_str_modest, lemma_limit_modest, lemma_count_modest, lemma_entry_modest};

    reveal_strlit("Keep-alive");
}

proof fn lemma_status_modest(m: Model, ls: int, vbus: int, trigger: int, speed: int)
    requires
        all_modest(m),
        m.fold_count < 8000,
        0 <= trigger <= 1,
    ensures
        all_modest(m.status_event(ls, vbus, trigger, speed)),
{
    broadcast use {
        lemma_info_modest,
        lemma_line_state_modest,
        lemma_keepalive_modest,
        model::lemma_capture_info,
        model::lemma_stop_folding,
    };

    reveal(Model::status_event);
    reveal_strlit("Trigger input = ");
    reveal_strlit("Starting capture");
    reveal_strlit("Waiting for a trigger");
    reveal_strlit("VBUS ON");
    reveal_strlit("VBUS OFF");
    reveal_strlit("Detected speed: Low-Speed");
    reveal_strlit("Detected speed: Full-Speed");
    reveal_strlit("Detected speed: High-Speed");
    reveal_strlit("--- Bus Reset ---");
    lemma_dec_len(trigger as nat);
    let enabled = model::triggered(m.trigger, m.enabled, m.trigger_in, trigger);
    assert(all_modest(Model { enabled, trigger_in: trigger, ..m }));
    let a = m.trigger_change(trigger);
    assert(all_modest(a) && a.fold_count < 8000);
    assert(all_modest(Model { vbus, ..a }));
    let b = a.vbus_change(vbus);
    assert(all_modest(b) && b.fold_count < 8000);
    assert(all_modest(Model { detected_speed: speed, ..b }));
    let c = b.speed_change(speed);
    assert(all_modest(c) && c.fold_count < 8000);
    assert(all_modest(Model { saved_ls: LS_INVALID as int, ..c }));
    assert(all_modest(c.line_change(ls)));
}

proof fn lemma_record_modest(m: Model, data_error: bool)
    requires
        all_modest(m),
        m.fold_count < 8000,
        m.frame.len() <= MAX_DATA_SIZE,
    ensures
        all_modest(m.record_packet(data_error)),
{
    broadcast use {
        lemma_packet_modest,
        lemma_stop_folding_modest,
        lemma_count_modest,
        lemma_entry_modest,
        model::lemma_stop_folding,
    };

}

proof fn lemma_data_modest(m: Model, overflow: bool, crc_error: bool, phy_error: bool)
    requires
        all_modest(m),
        m.fold_count < 8000,
        m.frame.len() <= MAX_DATA_SIZE,
    ensures
        all_modest(m.data_event(overflow, crc_error, phy_error)),
{
    broadcast use {
        lemma_info_modest,
        lemma_line_state_modest,
        lemma_stop_folding_modest,
        lemma_limit_modest,
        model::lemma_capture_info,
        model::lemma_stop_folding,
    };

    reveal(Model::data_event);
    reveal_strlit("Hardware buffer overflow");
    reveal_strlit("USB PHY error");
    let data_error = crc_error || phy_error;
    let a = m.line_state_event();
    let b = if overflow || data_error || a.fold.len() == model::FOLD_BUF_SIZE {
        a.stop_folding()
    } else {
        a
    };
    let c = if overflow {
        b.capture_info(b.ts, "Hardware buffer overflow"@)
    } else {
        b
    };
    let d = if phy_error {
        c.capture_info(c.ts, "USB PHY error"@)
    } else {
        c
    };
    assert(all_modest(d));
    lemma_record_modest(d, data_error);
}

proof fn lemma_desync_modest(m: Model)
    requires
        all_modest(m),
        m.frame.len() <= 7,
    ensures
        all_modest(m.desync_error()),
{
    broadcast use {lemma_info_modest, model::lemma_capture_info};

    reveal_strlit("Error: protocol desynchronization, stopping the capture");
    reveal_strlit("Packet header: ");
    lemma_hex_dump_len(m.frame);
    let a = m.capture_info(m.ts, "Error: protocol desynchronization, stopping the capture"@);
    assert(all_modest(a.capture_info(m.ts, messages::packet_header(m.frame))));
}

proof fn lemma_check_modest(m: Model, toggle: int, zero: int, size: int)
    requires
        all_modest(m),
        m.frame.len() <= 7,
        0 <= toggle <= 1,
        0 <= m.toggle <= 1,
        0 <= size < 10_000,
    ensures
        all_modest(m.check_header(toggle, zero)),
        all_modest(m.check_data_size(size)),
{
    broadcast use {lemma_info_modest, model::lemma_capture_info};

    reveal(Model::check_header);
    reveal(Model::check_data_size);
    reveal_strlit("Error: received toggle value ");
    reveal_strlit(", expected ");
    reveal_strlit("Error: zero bit in the header is not zero");
    reveal_strlit("Error: invalid data size (");
    reveal_strlit(")");
    lemma_dec_len(toggle as nat);
    lemma_dec_len(m.toggle as nat);
    lemma_dec_len(size as nat);
    let a = if toggle != m.toggle {
        m.capture_info(m.ts, messages::wrong_toggle(toggle, m.toggle))
    } else {
        m
    };
    let b = if zero != 0 {
        a.capture_info(a.ts, "Error: zero bit in the header is not zero"@)
    } else {
        a
    };
    lemma_desync_modest(b);
    lemma_desync_modest(m.capture_info(m.ts, messages::invalid_size(size)));
}

proof fn lemma_clock_modest(m: Model)
    requires
        all_modest(m),
        m.sound(),
        m.advance_clock().within_clock(),
    ensures
        all_modest(m.advance_clock()),
        m.advance_clock().sound(),
{
    broadcast use {lemma_info_modest, model::lemma_capture_info};

    reveal(Model::advance_clock);
    reveal_strlit("Periodic update");
    let ts_int = if m.frame[0] & model::HEADER_TS_OVERFLOW != 0 {
        m.ts_int + model::CLOCK_WRAP
    } else {
        m.ts_int
    };
    let n = Model {
        ts_int,
        ts: model::nanoseconds(ts_int + model::clock(m.frame)),
        toggle: 1 - model::flag(m.frame[0], model::HEADER_TOGGLE),
        ..m
    };
    assert(all_modest(n));
}

/// A byte leaves everything modest.
proof fn lemma_byte_modest(m: Model, byte: u8)
    requires
        all_modest(m),
        m.wf(),
        !m.stopped,
        m.process_byte(byte).within_clock(),
    ensures
        all_modest(m.process_byte(byte)),
{
    broadcast use {
        model::lemma_check_header,
        model::lemma_check_data_size,
        model::lemma_advance_clock,
        model::lemma_header_event,
    };

    let n = Model { frame: m.frame.push(byte), ..m };
    assert(all_modest(n));
    if n.frame.len() >= n.expected() {
        match n.stage {
            Stage::Header => {
                let toggle = model::flag(n.frame[0], model::HEADER_TOGGLE);
                let zero = model::flag(n.frame[0], model::HEADER_ZERO);
                lemma_check_modest(n, toggle, zero, 7);
                let k = n.check_header(toggle, zero);
                if !k.stopped {
                    lemma_clock_modest(k);
                    let c = k.advance_clock();
                    let size = model::data_size(c.frame);
                    lemma_check_modest(c, 0, 0, size);
                    let b3 = c.frame[3];
                    lemma_status_modest(
                        c,
                        (b3 % 16) as int,
                        model::flag(b3, model::HEADER_VBUS),
                        model::flag(b3, model::HEADER_TRIGGER),
                        (b3 / 64) as int,
                    );
                    reveal(Model::header_event);
                }
            },
            Stage::Payload { overflow, crc_error, data_error, .. } => {
                let k = Model { stage: Stage::Header, ..n };
                assert(all_modest(k));
                lemma_data_modest(k, overflow, crc_error, data_error);
            },
        }
    }
}

proof fn lemma_bytes_modest(m: Model, data: Seq<u8>)
    requires
        all_modest(m),
        m.wf(),
        !m.stopped,
        m.process_bytes(data).within_clock(),
    ensures
        all_modest(m.process_bytes(data)),
        !m.process_bytes(data).stopped ==> m.process_bytes(data).wf(),
    decreases data.len(),
{
    if data.len() > 0 {
        let n = m.process_bytes(data.drop_last());
        assert(data.take(data.len() - 1) =~= data.drop_last());
        model::lemma_clock_grows(m, data, data.len() - 1);
        lemma_bytes_modest(m, data.drop_last());
        if !n.stopped {
            lemma_byte_modest(n, data.last());
            invariants::law_invariant_kept(n, data.last());
        }
    }
}

/// The start of a capture file.
pub proof fn law_capture_start(
    speed: CaptureSpeed,
    trigger: CaptureTrigger,
    fold_empty: bool,
    limit: int,
)
    ensures
        ({
            let m = Model::started(speed, trigger, fold_empty, limit, Seq::empty());
            &&& m.log == seq![
                Record::Section,
                Record::Interface {
                    link_type: model::link_type(speed) as int,
                    name: "usb"@,
                    description: "Hardware USB interface"@,
                },
                Record::Interface {
                    link_type: model::LINKTYPE_WIRESHARK_UPPER_PDU as int,
                    name: "info"@,
                    description: "Out of band information"@,
                },
                Record::Text {
                    ts: 0,
                    text: if trigger == CaptureTrigger::Disabled {
                        "Starting capture"@
                    } else {
                        "Waiting for a trigger"@
                    },
                },
                Record::Flush,
            ]
            &&& m.wf()
            &&& !m.stopped
            &&& m.limit == limit
            &&& m.ts_int == 0
            &&& invariants::folds_empty_frames(m)
            &&& invariants::one_frame_waits(m)
            &&& invariants::follows_level(m)
        }),
{
    broadcast use model::lemma_capture_info;

    reveal(Model::capture_info);
    reveal(Model::stop_folding);
}

/// Whatever stream a capture gets, a reader finds in its file the blocks of the records, all of
/// them and in order, and nothing else.
pub proof fn law_capture_file_readable(
    speed: CaptureSpeed,
    trigger: CaptureTrigger,
    fold_empty: bool,
    limit: int,
    data: Seq<u8>,
)
    requires
        Model::started(speed, trigger, fold_empty, limit, Seq::empty()).process_bytes(
            data,
        ).within_clock(),
    ensures
        ({
            let log = Model::started(speed, trigger, fold_empty, limit, Seq::empty()).process(
                data,
            ).log;
            &&& forall|i: int| 0 <= i < log.len() ==> modest(#[trigger] log[i])
            &&& blocks::split_blocks(pcapng::encode_all(log)) == blocks::record_blocks(log)
        }),
{
    let m = Model::started(speed, trigger, fold_empty, limit, Seq::empty());
    law_capture_start(speed, trigger, fold_empty, limit);
    reveal_strlit("usb");
    reveal_strlit("info");
    reveal_strlit("Hardware USB interface");
    reveal_strlit("Out of band information");
    reveal_strlit("Starting capture");
    reveal_strlit("Waiting for a trigger");
    assert(all_modest(m)) by {
        broadcast use model::lemma_capture_info;

    }
    lemma_bytes_modest(m, data);
    let log = m.process(data).log;
    assert forall|i: int| 0 <= i < log.len() implies modest(#[trigger] log[i]) && blocks::fits(
        log[i],
    ) by {
        if i < m.process_bytes(data).log.len() {
            assert(modest(m.process_bytes(data).log[i]));
        }
        lemma_modest_fits(log[i]);
    }
    blocks::law_blocks_found(log);
}

} // verus!
