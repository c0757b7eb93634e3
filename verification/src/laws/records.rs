//! What each frame adds to the capture file.
//!
//! The laws say for every frame which records come, in which order, with which times and texts,
//! and what waits afterwards.

use vstd::prelude::*;

use crate::capture::{CaptureSpeed, CaptureTrigger};
use crate::laws::frames;
use crate::messages;
use crate::model;
use crate::model::{Fold, Model};
use crate::pcapng::Record;

verus! {

/// The time of the last packet or message among some records; `before`, if there is none.
pub open spec fn last_time(before: int, records: Seq<Record>) -> int
    decreases records.len(),
{
    if records.len() == 0 {
        before
    } else {
        match records.last() {
            Record::Packet { ts, data } => ts,
            Record::Text { ts, text } => ts,
            _ => last_time(before, records.drop_last()),
        }
    }
}

/// The capture with more records, and with the time of the last of them.
pub open spec fn with_records(m: Model, records: Seq<Record>) -> Model {
    Model { log: m.log + records, last_ts: last_time(m.last_ts, records), ..m }
}

proof fn lemma_last_time_add(before: int, a: Seq<Record>, b: Seq<Record>)
    ensures
        last_time(before, a + b) == last_time(last_time(before, a), b),
    decreases b.len(),
{
    if b.len() == 0 {
        assert(a + b =~= a);
    } else {
        assert((a + b).drop_last() =~= a + b.drop_last());
        lemma_last_time_add(before, a, b.drop_last());
    }
}

broadcast proof fn lemma_add(m: Model, a: Seq<Record>, b: Seq<Record>)
    ensures
        #[trigger] with_records(with_records(m, a), b) == with_records(m, a + b),
{
    lemma_last_time_add(m.last_ts, a, b);
    assert(m.log + a + b =~= m.log + (a + b));
}

broadcast proof fn lemma_add_none(m: Model)
    ensures
        #[trigger] with_records(m, Seq::<Record>::empty()) == m,
{
    assert(m.log + Seq::<Record>::empty() =~= m.log);
}

proof fn lemma_one(m: Model, r: Record)
    ensures
        with_records(m, seq![r]).log == m.log.push(r),
        with_records(m, seq![r]).last_ts == (match r {
            Record::Packet { ts, data } => ts,
            Record::Text { ts, text } => ts,
            _ => m.last_ts,
        }),
{
    assert(m.log + seq![r] =~= m.log.push(r));
    assert(seq![r].drop_last() =~= Seq::<Record>::empty());
    assert(last_time(m.last_ts, Seq::<Record>::empty()) == m.last_ts);
}

broadcast proof fn lemma_str(m: Model, ts: int, text: Seq<char>)
    ensures
        #[trigger] m.write_str(ts, text) == with_records(m, seq![Record::Text { ts, text }]),
{
    lemma_one(m, Record::Text { ts, text });
}

broadcast proof fn lemma_packet(m: Model, ts: int, data: Seq<u8>)
    ensures
        #[trigger] m.write_packet(ts, data) == with_records(m, seq![Record::Packet { ts, data }]),
{
    lemma_one(m, Record::Packet { ts, data });
}

broadcast proof fn lemma_flush(m: Model)
    ensures
        #[trigger] m.emit(Record::Flush) == with_records(m, seq![Record::Flush]),
{
    lemma_one(m, Record::Flush);
}

/// The time from `earlier` to `later`, which is zero if it went back.
pub open spec fn time_between(earlier: int, later: int) -> int {
    if later > earlier {
        later - earlier
    } else {
        0
    }
}

/// The record of the line state that is not recorded yet, if there is one: with the time at which
/// it began, and with its duration up to now.
pub open spec fn pending_line_state(m: Model) -> Seq<Record> {
    if m.saved_ls == -1 {
        Seq::empty()
    } else {
        seq![
            Record::Text {
                ts: m.saved_ts,
                text: messages::line_state(
                    m.saved_ls,
                    m.speed == CaptureSpeed::LowSpeed,
                    time_between(m.saved_ts, m.ts),
                ),
            },
        ]
    }
}

/// The records of a frame that waits: how many empty frames came before it, if any, and then its
/// packets and pulses.
pub open spec fn waiting(ts: int, count: int, fold: Seq<Fold>) -> Seq<Record> {
    (if count > 0 {
        seq![Record::Text { ts, text: messages::folded(count) }]
    } else {
        Seq::empty()
    }) + fold.map_values(|e: Fold| frames::fold_record(e))
}

/// Everything that comes before a message.
pub open spec fn held_back(m: Model) -> Seq<Record> {
    pending_line_state(m) + waiting(m.ts, m.fold_count, m.fold)
}

/// The capture when nothing is held back.
pub open spec fn released(m: Model) -> Model {
    Model { saved_ls: -1, fold: Seq::empty(), fold_count: 0, ..m }
}

broadcast proof fn lemma_line_state(m: Model)
    ensures
        #[trigger] m.line_state_event() == with_records(
            Model { saved_ls: -1, ..m },
            pending_line_state(m),
        ),
{
    let n = Model { saved_ls: -1, ..m };
    lemma_add_none(n);
    lemma_str(
        n,
        m.saved_ts,
        messages::line_state(
            m.saved_ls,
            m.speed == CaptureSpeed::LowSpeed,
            time_between(m.saved_ts, m.ts),
        ),
    );
}

proof fn lemma_folds(m: Model, entries: Seq<Fold>)
    ensures
        m.write_folds(entries) == with_records(
            m,
            entries.map_values(|e: Fold| frames::fold_record(e)),
        ),
    decreases entries.len(),
{
    broadcast use {lemma_add, lemma_str, lemma_packet};

    let records = entries.map_values(|e: Fold| frames::fold_record(e));
    if entries.len() == 0 {
        assert(records =~= Seq::empty());
        lemma_add_none(m);
    } else {
        let before = entries.drop_last();
        let earlier = before.map_values(|e: Fold| frames::fold_record(e));
        lemma_folds(m, before);
        let last = frames::fold_record(entries.last());
        assert(records =~= earlier + seq![last]);
        let n = with_records(m, earlier);
        assert(n.write_fold(entries.last()) == with_records(n, seq![last]));
    }
}

broadcast proof fn lemma_stop(m: Model)
    ensures
        #[trigger] m.stop_folding() == with_records(
            Model { fold: Seq::empty(), fold_count: 0, ..m },
            waiting(m.ts, m.fold_count, m.fold),
        ),
{
    broadcast use {lemma_add, lemma_add_none, lemma_str};

    reveal(Model::stop_folding);
    let n = Model { fold: Seq::empty(), fold_count: 0, ..m };
    let folds = m.fold.map_values(|e: Fold| frames::fold_record(e));
    if m.fold_count > 0 {
        let counted = n.write_str(m.ts, messages::folded(m.fold_count));
        lemma_folds(counted, m.fold);
    } else {
        lemma_folds(n, m.fold);
        assert(Seq::<Record>::empty() + folds =~= folds);
    }
}

/// The records of a message: it is flushed at once.
pub open spec fn note(ts: int, text: Seq<char>) -> Seq<Record> {
    seq![Record::Text { ts, text }, Record::Flush]
}

broadcast proof fn lemma_info(m: Model, ts: int, text: Seq<char>)
    ensures
        #[trigger] m.capture_info(ts, text) == with_records(
            released(m),
            held_back(m) + note(ts, text),
        ),
{
    broadcast use {lemma_add, lemma_line_state, lemma_stop, lemma_str, lemma_flush};

    reveal(Model::capture_info);
    let one = pending_line_state(m);
    let two = waiting(m.ts, m.fold_count, m.fold);
    let a = m.line_state_event();
    let b = a.stop_folding();
    assert(b == with_records(released(m), one + two)) by {
        assert(Model { fold: Seq::empty(), fold_count: 0, ..a } == with_records(released(m), one));
    }
    assert(held_back(m) + seq![Record::Text { ts, text }] + seq![Record::Flush] =~= held_back(m)
        + note(ts, text));
}

/// The records of some messages, one after another.
pub open spec fn notes(ts: int, texts: Seq<Seq<char>>) -> Seq<Record>
    decreases texts.len(),
{
    if texts.len() == 0 {
        Seq::empty()
    } else {
        notes(ts, texts.drop_last()) + note(ts, texts.last())
    }
}

/// The capture after some messages, of the time of the current frame: before the first of them
/// comes everything that was held back.
pub open spec fn noted(m: Model, texts: Seq<Seq<char>>) -> Model {
    if texts.len() == 0 {
        m
    } else {
        with_records(released(m), held_back(m) + notes(m.ts, texts))
    }
}

/// One more message.
proof fn lemma_noted(m: Model, texts: Seq<Seq<char>>, text: Seq<char>)
    ensures
        noted(m, texts).capture_info(m.ts, text) == noted(m, texts.push(text)),
{
    broadcast use {lemma_add, lemma_add_none, lemma_info};

    let n = noted(m, texts);
    let more = texts.push(text);
    assert(more.drop_last() =~= texts);
    assert(notes(m.ts, more) == notes(m.ts, texts) + note(m.ts, text));
    if texts.len() == 0 {
        assert(notes(m.ts, texts) + note(m.ts, text) =~= note(m.ts, text));
    } else {
        assert(n.fold.map_values(|e: Fold| frames::fold_record(e)) =~= Seq::<Record>::empty());
        assert(held_back(n) =~= Seq::<Record>::empty());
        assert(released(n) == n);
        assert(held_back(n) + note(m.ts, text) =~= note(m.ts, text));
        assert(held_back(m) + notes(m.ts, texts) + note(m.ts, text) =~= held_back(m) + notes(
            m.ts,
            more,
        ));
    }
}

/// A packet or pulse counts toward the limit. The one that reaches the limit ends the capture,
/// after everything that was held back, with a message.
pub open spec fn counted(m: Model) -> Model {
    if m.limit < 0 {
        m
    } else if m.limit == 1 {
        Model { limit: 0, stopped: true, ..noted(m, seq!["Capture limit reached"@]) }
    } else {
        Model { limit: m.limit - 1, ..m }
    }
}

proof fn lemma_noted_one(m: Model, text: Seq<char>)
    ensures
        m.capture_info(m.ts, text) == noted(m, seq![text]),
{
    lemma_noted(m, Seq::empty(), text);
    assert(Seq::<Seq<char>>::empty().push(text) =~= seq![text]);
}

proof fn lemma_counted(m: Model)
    requires
        !m.stopped,
    ensures
        m.check_capture_limit() == counted(m),
{
    let n = Model { limit: 0, ..m };
    lemma_noted_one(n, "Capture limit reached"@);
    assert(held_back(n) == held_back(m));
}

/// Bits of a byte by arithmetic.
proof fn lemma_flags(b: u8)
    ensures
        b & 0x80 != 0 <==> b / 128 == 1,
        b & 0x40 != 0 <==> b / 64 % 2 == 1,
        b & 0x20 != 0 <==> b / 32 % 2 == 1,
        b & 0x10 != 0 <==> b / 16 % 2 == 1,
        b & 0x08 != 0 <==> b / 8 % 2 == 1,
{
    assert((b & 0x80 != 0 <==> b / 128 == 1) && (b & 0x40 != 0 <==> b / 64 % 2 == 1) && (b & 0x20
        != 0 <==> b / 32 % 2 == 1) && (b & 0x10 != 0 <==> b / 16 % 2 == 1) && (b & 0x08 != 0 <==> b
        / 8 % 2 == 1)) by (bit_vector);
}

/// The ticks at the header that comes next: what the wraps of the clock have counted, the wrap
/// that the header reports included, and the twenty bits of the clock in the header.
pub open spec fn ticks(m: Model, header: Seq<u8>) -> int {
    m.ts_int + 0x10_0000 * (header[0] as int / 16 % 2) + 65536 * (header[0] as int % 16) + 256
        * header[1] + header[2]
}

/// The clock runs at 60 MHz: the time of a frame is the whole nanoseconds in its ticks. A header
/// adds a wrap of the clock if and only if it reports one.
pub proof fn law_time(m: Model, header: Seq<u8>)
    requires
        header.len() >= 4,
    ensures
        ({
            let c = frames::clocked(m, header);
            let t = ticks(m, header);
            &&& 6 * c.ts <= 100 * t < 6 * c.ts + 6
            &&& c.ts_int == m.ts_int + 0x10_0000 * (header[0] as int / 16 % 2)
        }),
{
    broadcast use model::lemma_capture_info;

    reveal(Model::advance_clock);
    lemma_flags(header[0]);
}

/// Time does not go back while the ticks do not.
pub proof fn law_time_goes_on(m: Model, header: Seq<u8>, later: Model, next: Seq<u8>)
    requires
        header.len() >= 4,
        next.len() >= 4,
        ticks(m, header) <= ticks(later, next),
    ensures
        frames::clocked(m, header).ts <= frames::clocked(later, next).ts,
{
    law_time(m, header);
    law_time(later, next);
}

/// A header sets the time and the toggle bit that comes next. If packets are recorded and nothing
/// was recorded for two seconds, there is a message.
pub proof fn law_header(m: Model, header: Seq<u8>)
    requires
        header.len() >= 4,
    ensures
        ({
            let c = frames::clocked(m, header);
            c == noted(
                Model {
                    frame: header,
                    ts_int: c.ts_int,
                    ts: c.ts,
                    toggle: 1 - header[0] as int / 64 % 2,
                    ..m
                },
                if m.enabled && c.ts - m.last_ts >= 2_000_000_000 {
                    seq!["Periodic update"@]
                } else {
                    Seq::empty()
                },
            )
        }),
{
    broadcast use model::lemma_capture_info;

    lemma_flags(header[0]);
    let c = frames::clocked(m, header);
    let n = Model {
        frame: header,
        ts_int: c.ts_int,
        ts: c.ts,
        toggle: 1 - header[0] as int / 64 % 2,
        ..m
    };
    reveal(Model::advance_clock);
    lemma_noted_one(n, "Periodic update"@);
}

/// A header that fits: a toggle bit other than that of the header before, and a zero bit of zero.
pub open spec fn fits(m: Model, header: Seq<u8>) -> bool {
    &&& header[0] as int / 64 % 2 == m.toggle
    &&& header[0] as int / 32 % 2 == 0
}

/// A header that fits is one that is in sync.
pub proof fn lemma_same_fit(m: Model, header: Seq<u8>)
    requires
        fits(m, header),
    ensures
        frames::in_sync(m, header),
        header[0] >= 128 <==> header[0] & 0x80 != 0,
{
    lemma_flags(header[0]);
}

/// A whole header of a status frame or a data frame.
pub open spec fn is_header(header: Seq<u8>) -> bool {
    if header[0] < 128 {
        header.len() == 4
    } else {
        header.len() == 7
    }
}

/// A header that does not fit ends the capture: what is wrong with it is recorded, and the header
/// itself, with the time of the frame before.
pub proof fn law_misfit(m: Model, header: Seq<u8>)
    requires
        frames::between_frames(m),
        0 <= m.toggle <= 1,
        header.len() > 0,
        is_header(header),
        !fits(m, header),
    ensures
        ({
            let toggle = header[0] as int / 64 % 2;
            let texts = (if toggle != m.toggle {
                seq![messages::wrong_toggle(toggle, m.toggle)]
            } else {
                Seq::empty()
            }) + (if header[0] as int / 32 % 2 == 1 {
                seq!["Error: zero bit in the header is not zero"@]
            } else {
                Seq::empty()
            }) + seq![
                "Error: protocol desynchronization, stopping the capture"@,
                messages::packet_header(header),
            ];
            m.process_bytes(header) == (Model {
                stopped: true,
                ..noted(Model { frame: header, ..m }, texts)
            })
        }),
{
    broadcast use model::lemma_capture_info;

    lemma_flags(header[0]);
    frames::lemma_complete(m, header);
    reveal(Model::check_header);
    let n = Model { frame: header, ..m };
    let toggle = header[0] as int / 64 % 2;
    let one = if toggle != m.toggle {
        seq![messages::wrong_toggle(toggle, m.toggle)]
    } else {
        Seq::empty()
    };
    let two = one + (if header[0] as int / 32 % 2 == 1 {
        seq!["Error: zero bit in the header is not zero"@]
    } else {
        Seq::empty()
    });
    let sync = "Error: protocol desynchronization, stopping the capture"@;
    let shown = messages::packet_header(header);
    lemma_noted(n, Seq::empty(), messages::wrong_toggle(toggle, m.toggle));
    assert(Seq::<Seq<char>>::empty().push(messages::wrong_toggle(toggle, m.toggle)) =~= seq![
        messages::wrong_toggle(toggle, m.toggle),
    ]);
    lemma_noted(n, one, "Error: zero bit in the header is not zero"@);
    assert(one.push("Error: zero bit in the header is not zero"@) =~= one + seq![
        "Error: zero bit in the header is not zero"@,
    ]);
    assert(one + Seq::<Seq<char>>::empty() =~= one);
    lemma_noted(n, two, sync);
    lemma_noted(n, two.push(sync), shown);
    assert(two.push(sync).push(shown) =~= two + seq![sync, shown]);
}

/// A data frame of an impossible size ends the capture, with the time of that frame.
pub proof fn law_wrong_size(m: Model, header: Seq<u8>)
    requires
        frames::between_frames(m),
        header.len() == 7,
        header[0] >= 128,
        fits(m, header),
        !(7 <= 256 * (header[3] as int % 8) + header[4] <= 1280),
    ensures
        m.process_bytes(header) == (Model {
            stopped: true,
            ..noted(
                frames::clocked(m, header),
                seq![
                    messages::invalid_size(256 * (header[3] as int % 8) + header[4]),
                    "Error: protocol desynchronization, stopping the capture"@,
                    messages::packet_header(header),
                ],
            )
        }),
{
    broadcast use {
        model::lemma_capture_info,
        model::lemma_check_header,
        model::lemma_advance_clock,
    };

    lemma_flags(header[0]);
    frames::lemma_complete(m, header);
    reveal(Model::header_event);
    reveal(Model::check_data_size);
    let c = frames::clocked(m, header);
    let one = messages::invalid_size(256 * (header[3] as int % 8) + header[4]);
    let sync = "Error: protocol desynchronization, stopping the capture"@;
    let shown = messages::packet_header(header);
    lemma_noted_one(c, one);
    lemma_noted(c, seq![one], sync);
    lemma_noted(c, seq![one, sync], shown);
    assert(seq![one].push(sync) =~= seq![one, sync]);
    assert(seq![one, sync].push(shown) =~= seq![one, sync, shown]);
}

/// The capture when the packet in a data frame is dealt with and not yet counted toward the limit.
/// `c` is the capture after the header.
///
/// The pending line state comes first. After errors, and when the buffer is full, nothing waits.
/// Errors other than a wrong checksum are reported. Then the packet is recorded, or it waits: the
/// start of a frame waits for the next packet, and what has no data waits with it.
pub open spec fn with_packet(
    c: Model,
    payload: Seq<u8>,
    overflow: bool,
    crc_error: bool,
    phy_error: bool,
) -> Model {
    let line = pending_line_state(c);
    let faulty = crc_error || phy_error;
    let let_go = overflow || faulty || c.fold.len() == 256;
    let first = line + (if let_go {
        waiting(c.ts, c.fold_count, c.fold)
    } else {
        Seq::empty()
    }) + (if overflow {
        note(c.ts, "Hardware buffer overflow"@)
    } else {
        Seq::empty()
    }) + (if phy_error {
        note(c.ts, "USB PHY error"@)
    } else {
        Seq::empty()
    });
    let fold = if let_go {
        Seq::<Fold>::empty()
    } else {
        c.fold
    };
    let count = if let_go {
        0
    } else {
        c.fold_count
    };
    let packet = Record::Packet { ts: c.ts, data: payload };
    let entry = Fold::Packet { ts: c.ts, data: payload };
    let sof = payload[0] == 0xa5 && c.speed != CaptureSpeed::LowSpeed;
    let most: int = if c.speed == CaptureSpeed::HighSpeed {
        8000
    } else {
        1000
    };
    if faulty || !c.fold_empty {
        // Recorded.
        with_records(
            Model { saved_ls: -1, fold, fold_count: count, ..c },
            first + seq![packet],
        )
    } else if fold.len() > 0 && (payload[0] == 0x69 || payload[0] == 0x5a) {
        // IN and NAK: the frame that waits may still be empty.
        with_records(
            Model { saved_ls: -1, fold: fold.push(entry), fold_count: count, ..c },
            first,
        )
    } else if fold.len() > 0 && sof && count + 1 != most {
        // The frame that waited was empty.
        with_records(
            Model { saved_ls: -1, fold: seq![entry], fold_count: count + 1, ..c },
            first,
        )
    } else if fold.len() > 0 && sof {
        // So many empty frames are reported.
        with_records(
            Model { saved_ls: -1, fold: seq![entry], fold_count: 0, ..c },
            first + (if count + 1 > 0 {
                seq![Record::Text { ts: c.ts, text: messages::folded(count + 1) }]
            } else {
                Seq::empty()
            }),
        )
    } else if sof {
        // A frame begins.
        with_records(
            Model { saved_ls: -1, fold: seq![entry], fold_count: count, ..c },
            first,
        )
    } else if fold.len() > 0 {
        // The frame that waited is not empty.
        with_records(
            Model { saved_ls: -1, fold: Seq::empty(), fold_count: 0, ..c },
            first + waiting(c.ts, count, fold) + seq![packet],
        )
    } else {
        with_records(
            Model { saved_ls: -1, fold, fold_count: count, ..c },
            first + seq![packet],
        )
    }
}

proof fn lemma_with_packet(c: Model, overflow: bool, crc_error: bool, phy_error: bool)
    requires
        c.enabled,
        !c.stopped,
        c.frame.len() > 0,
    ensures
        c.data_event(overflow, crc_error, phy_error) == counted(
            with_packet(c, c.frame, overflow, crc_error, phy_error),
        ),
{
    broadcast use {lemma_add, lemma_add_none, lemma_line_state, lemma_stop, lemma_packet};

    reveal(Model::data_event);
    let payload = c.frame;
    let line = pending_line_state(c);
    let faulty = crc_error || phy_error;
    let let_go = overflow || faulty || c.fold.len() == 256;
    let w = if let_go {
        waiting(c.ts, c.fold_count, c.fold)
    } else {
        Seq::empty()
    };
    let o = if overflow {
        note(c.ts, "Hardware buffer overflow"@)
    } else {
        Seq::empty()
    };
    let e = if phy_error {
        note(c.ts, "USB PHY error"@)
    } else {
        Seq::empty()
    };
    let fold = if let_go {
        Seq::<Fold>::empty()
    } else {
        c.fold
    };
    let count = if let_go {
        0
    } else {
        c.fold_count
    };
    let base = Model { saved_ls: -1, fold, fold_count: count, ..c };

    let a = c.line_state_event();
    let b = if let_go {
        a.stop_folding()
    } else {
        a
    };
    assert(b == with_records(base, line + w)) by {
        if let_go {
            assert(Model { fold: Seq::empty(), fold_count: 0, ..a } == with_records(base, line));
        } else {
            assert(line + w =~= line);
        }
    }
    let d = if overflow {
        b.capture_info(b.ts, "Hardware buffer overflow"@)
    } else {
        b
    };
    assert(d == with_records(base, line + w + o)) by {
        if overflow {
            lemma_quiet_info(b, "Hardware buffer overflow"@);
        } else {
            assert(line + w + o =~= line + w);
        }
    }
    let f = if phy_error {
        d.capture_info(d.ts, "USB PHY error"@)
    } else {
        d
    };
    let first = line + w + o + e;
    assert(f == with_records(base, first)) by {
        if phy_error {
            lemma_quiet_info(d, "USB PHY error"@);
        } else {
            assert(first =~= line + w + o);
        }
    }
    assert(c.data_event(overflow, crc_error, phy_error) == f.record_packet(
        faulty,
    ).check_capture_limit());
    lemma_disposed(c, base, first, faulty);
    let r = f.record_packet(faulty);
    assert(r == with_packet(c, payload, overflow, crc_error, phy_error));
    lemma_counted(r);
}

/// A message when nothing is held back.
proof fn lemma_quiet_info(m: Model, text: Seq<char>)
    requires
        m.saved_ls == -1,
        m.fold.len() == 0,
        m.fold_count == 0,
    ensures
        m.capture_info(m.ts, text) == with_records(m, note(m.ts, text)),
{
    lemma_info(m, m.ts, text);
    assert(m.fold =~= Seq::empty());
    assert(m.fold.map_values(|e: Fold| frames::fold_record(e)) =~= Seq::<Record>::empty());
    assert(held_back(m) + note(m.ts, text) =~= note(m.ts, text));
    assert(released(m) == m);
}

/// What becomes of a packet once what comes before it is recorded.
proof fn lemma_disposed(c: Model, base: Model, first: Seq<Record>, faulty: bool)
    requires
        base == (Model { saved_ls: -1, fold: base.fold, fold_count: base.fold_count, ..c }),
        c.frame.len() > 0,
    ensures
        ({
            let payload = c.frame;
            let r = with_records(base, first).record_packet(faulty);
            let packet = Record::Packet { ts: c.ts, data: payload };
            let entry = Fold::Packet { ts: c.ts, data: payload };
            let sof = payload[0] == 0xa5 && c.speed != CaptureSpeed::LowSpeed;
            let most: int = if c.speed == CaptureSpeed::HighSpeed {
                8000
            } else {
                1000
            };
            if faulty || !c.fold_empty {
                r == with_records(base, first + seq![packet])
            } else if base.fold.len() > 0 && (payload[0] == 0x69 || payload[0] == 0x5a) {
                r == with_records(Model { fold: base.fold.push(entry), ..base }, first)
            } else if base.fold.len() > 0 && sof && base.fold_count + 1 != most {
                r == with_records(
                    Model { fold: seq![entry], fold_count: base.fold_count + 1, ..base },
                    first,
                )
            } else if base.fold.len() > 0 && sof {
                r == with_records(
                    Model { fold: seq![entry], fold_count: 0, ..base },
                    first + (if base.fold_count + 1 > 0 {
                        seq![
                            Record::Text { ts: c.ts, text: messages::folded(base.fold_count + 1) },
                        ]
                    } else {
                        Seq::empty()
                    }),
                )
            } else if sof {
                r == with_records(Model { fold: seq![entry], ..base }, first)
            } else if base.fold.len() > 0 {
                r == with_records(
                    Model { fold: Seq::empty(), fold_count: 0, ..base },
                    first + waiting(c.ts, base.fold_count, base.fold) + seq![packet],
                )
            } else {
                r == with_records(base, first + seq![packet])
            }
        }),
{
    broadcast use {lemma_add, lemma_add_none, lemma_stop, lemma_packet};

    let f = with_records(base, first);
    let entry = Fold::Packet { ts: c.ts, data: c.frame };
    let none = Seq::<Fold>::empty();
    assert(none.push(entry) =~= seq![entry]);
    assert(none.map_values(|e: Fold| frames::fold_record(e)) =~= Seq::<Record>::empty());
    if base.fold.len() == 0 {
        assert(base.fold =~= none);
    }
    let text = if base.fold_count + 1 > 0 {
        seq![Record::Text { ts: c.ts, text: messages::folded(base.fold_count + 1) }]
    } else {
        Seq::empty()
    };
    assert(waiting(c.ts, base.fold_count + 1, none) =~= text);
    let counted = Model { fold: none, fold_count: base.fold_count + 1, ..f };
    let cleared = Model { fold: none, fold_count: 0, ..base };
    assert(Model { fold: none, fold_count: 0, ..counted } == with_records(cleared, first));
    assert(Model { fold: none, fold_count: 0, ..f } == with_records(cleared, first));
    assert(f.stop_folding() == with_records(
        cleared,
        first + waiting(c.ts, base.fold_count, base.fold),
    ));
    assert(counted.stop_folding() == with_records(cleared, first + text));
}

/// A data frame: its packet, which is recorded or waits, with the time of its header, and counts
/// toward the limit. While packets are not recorded, the frame only tells the time.
pub proof fn law_data_frame_records(m: Model, header: Seq<u8>, payload: Seq<u8>)
    requires
        frames::between_frames(m),
        header.len() == 7,
        header[0] >= 128,
        fits(m, header),
        payload.len() > 0,
        256 * (header[3] as int % 8) + header[4] == 7 + payload.len() <= 1280,
    ensures
        ({
            let c = frames::clocked(m, header);
            let r = counted(
                with_packet(
                    c,
                    payload,
                    header[3] as int / 8 % 2 == 1,
                    header[3] as int / 16 % 2 == 1,
                    header[3] as int / 32 % 2 == 1,
                ),
            );
            let n = m.process_bytes(header + payload);
            if !m.enabled {
                n == (Model { frame: Seq::empty(), ..c })
            } else if m.limit == 1 {
                n == (Model { frame: payload, ..r })
            } else {
                n == (Model { frame: Seq::empty(), ..r })
            }
        }),
{
    broadcast use model::lemma_capture_info;

    lemma_flags(header[0]);
    lemma_flags(header[3]);
    frames::law_data_frame(m, header, payload);
    law_header(m, header);
    let c = frames::clocked(m, header);
    let p = Model { frame: payload, ..c };
    assert(c.enabled == m.enabled && c.limit == m.limit && !c.stopped);
    if m.enabled {
        lemma_with_packet(
            p,
            header[3] as int / 8 % 2 == 1,
            header[3] as int / 16 % 2 == 1,
            header[3] as int / 32 % 2 == 1,
        );
        lemma_frame_apart(
            c,
            payload,
            header[3] as int / 8 % 2 == 1,
            header[3] as int / 16 % 2 == 1,
            header[3] as int / 32 % 2 == 1,
        );
    } else {
        reveal(Model::data_event);
    }
}

/// The bytes of the frame do not matter for the limit.
proof fn lemma_counted_apart(c: Model, frame: Seq<u8>)
    ensures
        counted(Model { frame, ..c }) == (Model { frame, ..counted(c) }),
{
    let n = Model { frame, ..c };
    assert(held_back(n) == held_back(c));
}

#[verifier::spinoff_prover]
proof fn lemma_packet_apart(
    c: Model,
    payload: Seq<u8>,
    overflow: bool,
    crc_error: bool,
    phy_error: bool,
)
    ensures
        with_packet(Model { frame: payload, ..c }, payload, overflow, crc_error, phy_error) == (
        Model { frame: payload, ..with_packet(c, payload, overflow, crc_error, phy_error) }),
        with_packet(c, payload, overflow, crc_error, phy_error).limit == c.limit,
        with_packet(c, payload, overflow, crc_error, phy_error).stopped == c.stopped,
{
    assert(pending_line_state(Model { frame: payload, ..c }) == pending_line_state(c));
}

/// The bytes of the frame do not matter for its records.
proof fn lemma_frame_apart(
    c: Model,
    payload: Seq<u8>,
    overflow: bool,
    crc_error: bool,
    phy_error: bool,
)
    ensures
        counted(
            with_packet(
                Model { frame: payload, ..c },
                payload,
                overflow,
                crc_error,
                phy_error,
            ),
        ) == (Model {
            frame: payload,
            ..counted(with_packet(c, payload, overflow, crc_error, phy_error))
        }),
        with_packet(c, payload, overflow, crc_error, phy_error).limit == c.limit,
        with_packet(c, payload, overflow, crc_error, phy_error).stopped == c.stopped,
{
    lemma_packet_apart(c, payload, overflow, crc_error, phy_error);
    lemma_counted_apart(with_packet(c, payload, overflow, crc_error, phy_error), payload);
}

/// Whether packets are recorded, once the trigger input has gone from `before` to `now`.
pub open spec fn runs(trigger: CaptureTrigger, running: bool, before: int, now: int) -> bool {
    if before == now {
        running
    } else {
        match trigger {
            CaptureTrigger::Disabled => true,
            CaptureTrigger::Low => now == 0,
            CaptureTrigger::High => now == 1,
            CaptureTrigger::Falling => running || (before == 1 && now == 0),
            CaptureTrigger::Rising => running || (before == 0 && now == 1),
        }
    }
}

/// The messages for a status frame, of whose byte 3 bit 4 is the bus voltage, bit 5 the trigger
/// input, and bits 6 and 7 are the speed. `c` is the capture after the header.
pub open spec fn status_texts(c: Model, b3: int) -> Seq<Seq<char>> {
    let vbus = b3 / 16 % 2;
    let input = b3 / 32 % 2;
    let speed = b3 / 64;
    let running = runs(c.trigger, c.enabled, c.trigger_in, input);
    (if c.trigger_in == input {
        Seq::empty()
    } else if input == 1 {
        seq!["Trigger input = 1"@]
    } else {
        seq!["Trigger input = 0"@]
    }) + (if running && !c.enabled {
        seq!["Starting capture"@]
    } else if !running && c.enabled {
        seq!["Waiting for a trigger"@]
    } else {
        Seq::empty()
    }) + (if c.vbus == vbus {
        Seq::empty()
    } else if vbus == 1 {
        seq!["VBUS ON"@]
    } else {
        seq!["VBUS OFF"@]
    }) + (if c.detected_speed == speed || !running {
        Seq::empty()
    } else if speed == 0 {
        seq!["Detected speed: Low-Speed"@]
    } else if speed == 1 {
        seq!["Detected speed: Full-Speed"@]
    } else if speed == 2 {
        seq!["Detected speed: High-Speed"@]
    } else {
        seq!["--- Bus Reset ---"@]
    })
}

/// The capture when the messages for a status frame are recorded.
pub open spec fn with_status(c: Model, b3: int) -> Model {
    noted(
        Model {
            enabled: runs(c.trigger, c.enabled, c.trigger_in, b3 / 32 % 2),
            trigger_in: b3 / 32 % 2,
            vbus: b3 / 16 % 2,
            detected_speed: b3 / 64,
            ..c
        },
        status_texts(c, b3),
    )
}

proof fn lemma_dec_bit(b: int)
    requires
        0 <= b <= 1,
    ensures
        messages::trigger_input(b) == (if b == 1 {
            "Trigger input = 1"@
        } else {
            "Trigger input = 0"@
        }),
{
    reveal_strlit("Trigger input = ");
    reveal_strlit("Trigger input = 1");
    reveal_strlit("Trigger input = 0");
    assert(crate::text::dec(b as nat) =~= seq![
        if b == 1 {
            '1'
        } else {
            '0'
        },
    ]);
    assert(messages::trigger_input(b) =~= (if b == 1 {
        "Trigger input = 1"@
    } else {
        "Trigger input = 0"@
    }));
}

/// The same messages, whatever else the capture knows.
proof fn lemma_noted_apart(m: Model, n: Model, texts: Seq<Seq<char>>)
    requires
        n == (Model {
            enabled: n.enabled,
            trigger_in: n.trigger_in,
            vbus: n.vbus,
            detected_speed: n.detected_speed,
            ..m
        }),
    ensures
        noted(n, texts) == (Model {
            enabled: n.enabled,
            trigger_in: n.trigger_in,
            vbus: n.vbus,
            detected_speed: n.detected_speed,
            ..noted(m, texts)
        }),
{
}

proof fn lemma_with_trigger(c: Model, input: int)
    requires
        0 <= input <= 1,
    ensures
        ({
            let running = runs(c.trigger, c.enabled, c.trigger_in, input);
            c.trigger_change(input) == noted(
                Model { enabled: running, trigger_in: input, ..c },
                (if c.trigger_in == input {
                    Seq::empty()
                } else if input == 1 {
                    seq!["Trigger input = 1"@]
                } else {
                    seq!["Trigger input = 0"@]
                }) + (if running && !c.enabled {
                    seq!["Starting capture"@]
                } else if !running && c.enabled {
                    seq!["Waiting for a trigger"@]
                } else {
                    Seq::empty()
                }),
            )
        }),
{
    let running = runs(c.trigger, c.enabled, c.trigger_in, input);
    let none = Seq::<Seq<char>>::empty();
    let m = Model { enabled: running, trigger_in: input, ..c };
    lemma_dec_bit(input);
    if c.trigger_in == input {
        assert(none + none =~= none);
        assert(m == c);
    } else {
        let text = messages::trigger_input(input);
        let one = seq![text];
        lemma_noted_one(m, text);
        lemma_noted(m, one, "Starting capture"@);
        lemma_noted(m, one, "Waiting for a trigger"@);
        assert(one.push("Starting capture"@) =~= one + seq!["Starting capture"@]);
        assert(one.push("Waiting for a trigger"@) =~= one + seq!["Waiting for a trigger"@]);
        assert(one + none =~= one);
    }
}

proof fn lemma_with_vbus(m: Model, texts: Seq<Seq<char>>, vbus: int)
    requires
        0 <= vbus <= 1,
    ensures
        noted(m, texts).vbus_change(vbus) == noted(
            Model { vbus, ..m },
            texts + (if m.vbus == vbus {
                Seq::empty()
            } else if vbus == 1 {
                seq!["VBUS ON"@]
            } else {
                seq!["VBUS OFF"@]
            }),
        ),
{
    let n = Model { vbus, ..m };
    let text = messages::vbus(vbus != 0);
    lemma_noted_apart(m, n, texts);
    lemma_noted(n, texts, text);
    assert(texts.push(text) =~= texts + seq![text]);
    assert(texts + Seq::<Seq<char>>::empty() =~= texts);
}

proof fn lemma_with_speed(m: Model, texts: Seq<Seq<char>>, speed: int)
    requires
        0 <= speed <= 3,
    ensures
        noted(m, texts).speed_change(speed) == noted(
            Model { detected_speed: speed, ..m },
            texts + (if m.detected_speed == speed || !m.enabled {
                Seq::empty()
            } else if speed == 0 {
                seq!["Detected speed: Low-Speed"@]
            } else if speed == 1 {
                seq!["Detected speed: Full-Speed"@]
            } else if speed == 2 {
                seq!["Detected speed: High-Speed"@]
            } else {
                seq!["--- Bus Reset ---"@]
            }),
        ),
{
    let n = Model { detected_speed: speed, ..m };
    let text = messages::detected_speed(speed);
    lemma_noted_apart(m, n, texts);
    lemma_noted(n, texts, text);
    assert(texts.push(text) =~= texts + seq![text]);
    assert(texts + Seq::<Seq<char>>::empty() =~= texts);
}

proof fn lemma_with_status(c: Model, b3: int)
    requires
        0 <= b3 < 256,
    ensures
        c.trigger_change(b3 / 32 % 2).vbus_change(b3 / 16 % 2).speed_change(b3 / 64)
            == with_status(c, b3),
{
    let vbus = b3 / 16 % 2;
    let input = b3 / 32 % 2;
    let running = runs(c.trigger, c.enabled, c.trigger_in, input);
    let m = Model { enabled: running, trigger_in: input, ..c };
    let n = Model { vbus, ..m };
    let one = (if c.trigger_in == input {
        Seq::empty()
    } else if input == 1 {
        seq!["Trigger input = 1"@]
    } else {
        seq!["Trigger input = 0"@]
    }) + (if running && !c.enabled {
        seq!["Starting capture"@]
    } else if !running && c.enabled {
        seq!["Waiting for a trigger"@]
    } else {
        Seq::empty()
    });
    let two = one + (if m.vbus == vbus {
        Seq::empty()
    } else if vbus == 1 {
        seq!["VBUS ON"@]
    } else {
        seq!["VBUS OFF"@]
    });
    lemma_with_trigger(c, input);
    lemma_with_vbus(m, one, vbus);
    lemma_with_speed(n, two, b3 / 64);
}

/// The capture when the line state of a status frame is dealt with. `n` is the capture after the
/// messages.
///
/// A line state is recorded when it ends, since its duration is known then. The end of SE0 after
/// one to two microseconds on a low-speed bus is a keep-alive pulse instead, which is recorded or
/// waits, and counts toward the limit.
pub open spec fn with_line_state(n: Model, ls: int) -> Model {
    let lasted = time_between(n.saved_ts, n.ts);
    let pulse = n.speed == CaptureSpeed::LowSpeed && n.saved_ls == 0 && ls == 12 && 1000 <= lasted
        <= 2000;
    let entry = Fold::Keepalive { ts: n.saved_ts, delta: lasted };
    let k = Model { saved_ls: -1, ..n };
    if n.ls == ls {
        n
    } else if !pulse {
        with_records(
            Model { saved_ls: ls, saved_ts: n.ts, ls, ..n },
            pending_line_state(n),
        )
    } else if !n.enabled {
        Model { ls, ..k }
    } else {
        let r = counted(
            if !n.fold_empty {
                with_records(k, seq![Record::Text { ts: n.saved_ts, text: "Keep-alive"@ }])
            } else if n.fold.len() == 0 {
                Model { fold: seq![entry], ..k }
            } else if n.fold_count + 1 != 1000 {
                Model { fold: seq![entry], fold_count: n.fold_count + 1, ..k }
            } else {
                with_records(
                    Model { fold: seq![entry], fold_count: 0, ..k },
                    seq![Record::Text { ts: n.ts, text: messages::folded(1000) }],
                )
            },
        );
        if n.limit == 1 {
            r
        } else {
            Model { ls, ..r }
        }
    }
}

proof fn lemma_with_line_state(n: Model, ls: int)
    requires
        !n.stopped,
    ensures
        n.line_change(ls) == with_line_state(n, ls),
{
    broadcast use {lemma_add, lemma_add_none, lemma_line_state, lemma_stop, lemma_str};

    let lasted = time_between(n.saved_ts, n.ts);
    assert(lasted == model::elapsed(n.ts, n.saved_ts));
    let entry = Fold::Keepalive { ts: n.saved_ts, delta: lasted };
    let k = Model { saved_ls: -1, ..n };
    let none = Seq::<Fold>::empty();
    assert(none.push(entry) =~= seq![entry]);
    assert(none.map_values(|e: Fold| frames::fold_record(e)) =~= Seq::<Record>::empty());
    if n.fold.len() == 0 {
        assert(n.fold =~= none);
    }
    let more = Model { fold: none, fold_count: n.fold_count + 1, ..k };
    if n.fold_count + 1 == 1000 {
        assert(waiting(n.ts, 1000, none) =~= seq![
            Record::Text { ts: n.ts, text: messages::folded(1000) },
        ]);
        assert(Model { fold: none, fold_count: 0, ..more } == Model {
            fold: none,
            fold_count: 0,
            ..k
        });
    }
    let e1 = k.write_keepalive(n.saved_ts);
    let e2 = k.fold_entry(entry);
    let e3 = k.count_folded(1000).fold_entry(entry);
    lemma_counted(e1);
    lemma_counted(e2);
    lemma_counted(e3);
}

/// A status frame: the messages for what changed, then the line state.
pub proof fn law_status_frame_records(m: Model, header: Seq<u8>)
    requires
        frames::between_frames(m),
        header.len() == 4,
        header[0] < 128,
        fits(m, header),
    ensures
        ({
            let c = frames::clocked(m, header);
            let r = with_line_state(with_status(c, header[3] as int), header[3] as int % 16);
            m.process_bytes(header) == (if r.stopped {
                r
            } else {
                Model { frame: Seq::empty(), ..r }
            })
        }),
{
    broadcast use model::lemma_capture_info;

    lemma_flags(header[0]);
    lemma_flags(header[3]);
    frames::law_status_frame(m, header);
    law_header(m, header);
    let c = frames::clocked(m, header);
    let b3 = header[3] as int;
    reveal(Model::header_event);
    reveal(Model::status_event);
    lemma_with_status(c, b3);
    lemma_with_line_state(with_status(c, b3), b3 % 16);
}

} // verus!
