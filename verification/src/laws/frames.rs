//! What becomes of the frames in the stream.

use vstd::prelude::*;

use crate::capture::CaptureSpeed;
use crate::laws::stream;
use crate::messages;
use crate::model;
use crate::model::{
    Fold, Model, Stage, DATA_HEADER_SIZE, HEADER_CRC_ERROR, HEADER_DATA_ERROR, HEADER_OVERFLOW,
    HEADER_STATUS, HEADER_TOGGLE, HEADER_TRIGGER, HEADER_VBUS, HEADER_ZERO, LS_INVALID, LS_J3,
    MAX_DATA_SIZE, PID_IN, PID_NAK, PID_SOF, STATUS_HEADER_SIZE, UPDATE_INTERVAL,
};
use crate::pcapng::Record;

verus! {

/// The capture is between two frames.
pub open spec fn between_frames(m: Model) -> bool {
    &&& m.stage is Header
    &&& m.frame == Seq::<u8>::empty()
    &&& !m.stopped
}

/// A header that the capture accepts next.
pub open spec fn in_sync(m: Model, header: Seq<u8>) -> bool {
    &&& model::flag(header[0], HEADER_TOGGLE) == m.toggle
    &&& model::flag(header[0], HEADER_ZERO) == 0
}

/// The capture when the header has arrived and its time is known.
pub open spec fn clocked(m: Model, header: Seq<u8>) -> Model {
    Model { frame: header, ..m }.advance_clock()
}

/// Bytes of a header or a payload are collected until it is complete.
proof fn lemma_collect(m: Model, data: Seq<u8>)
    requires
        !m.stopped,
        m.stage is Header && m.frame.len() == 0 ==> data.len() < model::header_size(data[0]),
        m.stage is Header && m.frame.len() > 0 ==> m.frame.len() + data.len() < model::header_size(
            m.frame[0],
        ),
        m.stage matches Stage::Payload { size, .. } ==> m.frame.len() + data.len() < size,
    ensures
        m.process_bytes(data) == (Model { frame: m.frame + data, ..m }),
    decreases data.len(),
{
    if data.len() == 0 {
        assert(m.frame + data =~= m.frame);
    } else {
        lemma_collect(m, data.drop_last());
        assert((m.frame + data.drop_last()).push(data.last()) =~= m.frame + data);
    }
}

/// A whole header or payload, from its first byte on.
pub proof fn lemma_complete(m: Model, data: Seq<u8>)
    requires
        !m.stopped,
        m.frame == Seq::<u8>::empty(),
        data.len() > 0,
        data.len() == (match m.stage {
            Stage::Header => model::header_size(data[0]),
            Stage::Payload { size, .. } => size,
        }),
    ensures
        m.process_bytes(data) == (Model { frame: data, ..m }).frame_event(),
{
    lemma_collect(m, data.drop_last());
    assert(m.frame + data.drop_last() =~= data.drop_last());
    assert(data.drop_last().push(data.last()) =~= data);
}

/// A status frame: the time advances, each thing that changed is recorded, and the next frame
/// must have the other toggle bit.
pub proof fn law_status_frame(m: Model, header: Seq<u8>)
    requires
        between_frames(m),
        header.len() == STATUS_HEADER_SIZE,
        header[0] & HEADER_STATUS == 0,
        in_sync(m, header),
    ensures
        m.process_bytes(header) == clocked(m, header).header_event(),
        m.process_bytes(header).toggle == 1 - m.toggle,
{
    broadcast use {
        model::lemma_check_header,
        model::lemma_capture_info,
        model::lemma_status_event,
        model::lemma_check_data_size,
    };

    lemma_complete(m, header);
    reveal(Model::header_event);
    reveal(Model::advance_clock);
}

/// The capture knows the bus as byte 3 of a status frame describes it.
pub open spec fn is_known(m: Model, b3: u8) -> bool {
    &&& m.ls == b3 % 16
    &&& m.vbus == model::flag(b3, HEADER_VBUS)
    &&& m.trigger_in == model::flag(b3, HEADER_TRIGGER)
    &&& m.detected_speed == b3 / 64
}

/// After a status frame, unless it ended the capture, the capture knows the bus as the frame
/// describes it.
pub proof fn law_status_known(m: Model, header: Seq<u8>)
    requires
        between_frames(m),
        header.len() == STATUS_HEADER_SIZE,
        header[0] & HEADER_STATUS == 0,
        in_sync(m, header),
    ensures
        !m.process_bytes(header).stopped ==> is_known(m.process_bytes(header), header[3])
            && between_frames(m.process_bytes(header)),
{
    broadcast use {model::lemma_capture_info, model::lemma_stop_folding};

    law_status_frame(m, header);
    let c = clocked(m, header);
    assert(c.stage is Header && c.frame == header) by {
        broadcast use model::lemma_advance_clock;

    }
    reveal(Model::header_event);
    reveal(Model::status_event);
}

/// A status frame that says nothing new changes nothing but the time, and nothing is recorded
/// for it; only the periodic message may be due.
pub proof fn law_nothing_new(m: Model, header: Seq<u8>)
    requires
        between_frames(m),
        header.len() == STATUS_HEADER_SIZE,
        header[0] & HEADER_STATUS == 0,
        in_sync(m, header),
        is_known(m, header[3]),
    ensures
        ({
            let r = m.process_bytes(header);
            let c = clocked(m, header);
            &&& r == (Model { frame: Seq::empty(), ..c })
            &&& model::elapsed(c.ts, m.last_ts) < UPDATE_INTERVAL ==> r == (Model {
                toggle: c.toggle,
                ts_int: c.ts_int,
                ts: c.ts,
                ..m
            })
        }),
{
    broadcast use model::lemma_capture_info;

    law_status_frame(m, header);
    reveal(Model::header_event);
    reveal(Model::status_event);
    reveal(Model::advance_clock);
}

/// A status frame that is repeated changes nothing but the time.
pub proof fn law_repeated_status(m: Model, header: Seq<u8>, again: Seq<u8>)
    requires
        between_frames(m),
        header.len() == STATUS_HEADER_SIZE,
        header[0] & HEADER_STATUS == 0,
        in_sync(m, header),
        !m.process_bytes(header).stopped,
        again.len() == STATUS_HEADER_SIZE,
        again[0] & HEADER_STATUS == 0,
        in_sync(m.process_bytes(header), again),
        again[3] == header[3],
    ensures
        ({
            let n = m.process_bytes(header);
            n.process_bytes(again) == (Model { frame: Seq::empty(), ..clocked(n, again) })
        }),
{
    law_status_known(m, header);
    law_nothing_new(m.process_bytes(header), again);
}

/// A data frame: the time advances, and the packet that follows the header is recorded as the
/// flags of the header demand. The next frame must have the other toggle bit.
pub proof fn law_data_frame(m: Model, header: Seq<u8>, payload: Seq<u8>)
    requires
        between_frames(m),
        header.len() == DATA_HEADER_SIZE,
        header[0] & HEADER_STATUS != 0,
        in_sync(m, header),
        payload.len() > 0,
        model::data_size(header) == DATA_HEADER_SIZE + payload.len() <= MAX_DATA_SIZE,
    ensures
        ({
            let r = Model { frame: payload, ..clocked(m, header) }.data_event(
                header[3] & HEADER_OVERFLOW != 0,
                header[3] & HEADER_CRC_ERROR != 0,
                header[3] & HEADER_DATA_ERROR != 0,
            );
            &&& m.process_bytes(header + payload) == (if r.stopped {
                r
            } else {
                Model { frame: Seq::empty(), ..r }
            })
            &&& r.toggle == 1 - m.toggle
        }),
{
    broadcast use {
        model::lemma_check_header,
        model::lemma_check_data_size,
        model::lemma_advance_clock,
        model::lemma_data_event,
        model::lemma_capture_info,
    };

    lemma_complete(m, header);
    reveal(Model::header_event);
    let c = clocked(m, header);
    let n = m.process_bytes(header);
    lemma_complete(n, payload);
    stream::law_bytes_join(m, header, payload);
    assert(c.toggle == 1 - m.toggle) by {
        reveal(Model::advance_clock);
    }
    let p = Model { stage: Stage::Header, ..Model { frame: payload, ..n } };
    assert(p == Model { frame: payload, ..c });
}

/// A data frame without a packet changes nothing but the time.
pub proof fn law_empty_data_frame(m: Model, header: Seq<u8>)
    requires
        between_frames(m),
        header.len() == DATA_HEADER_SIZE,
        header[0] & HEADER_STATUS != 0,
        in_sync(m, header),
        model::data_size(header) == DATA_HEADER_SIZE,
    ensures
        m.process_bytes(header) == (Model { frame: Seq::empty(), ..clocked(m, header) }),
{
    broadcast use {
        model::lemma_check_header,
        model::lemma_check_data_size,
        model::lemma_advance_clock,
    };

    lemma_complete(m, header);
    reveal(Model::header_event);
}

/// A packet that is never folded: one with an error, one that is no part of an empty frame, or
/// any at all, if frames are not folded.
pub open spec fn never_folded(m: Model, header: Seq<u8>, payload: Seq<u8>) -> bool {
    ||| !m.fold_empty
    ||| header[3] & HEADER_CRC_ERROR != 0
    ||| header[3] & HEADER_DATA_ERROR != 0
    ||| payload[0] != PID_SOF && payload[0] != PID_IN && payload[0] != PID_NAK
}

/// A packet that is never folded is in the capture file, byte for byte and with the time of its
/// header: after everything recorded before, and last, unless it ends the capture.
pub proof fn law_packet_recorded(m: Model, header: Seq<u8>, payload: Seq<u8>)
    requires
        between_frames(m),
        m.enabled,
        header.len() == DATA_HEADER_SIZE,
        header[0] & HEADER_STATUS != 0,
        in_sync(m, header),
        payload.len() > 0,
        model::data_size(header) == DATA_HEADER_SIZE + payload.len() <= MAX_DATA_SIZE,
        never_folded(m, header, payload),
    ensures
        ({
            let r = m.process_bytes(header + payload);
            let packet = Record::Packet { ts: clocked(m, header).ts, data: payload };
            &&& r.log.contains(packet)
            &&& !r.stopped ==> r.log.last() == packet
        }),
{
    broadcast use model::lemma_capture_info;

    law_data_frame(m, header, payload);
    let c = Model { frame: payload, ..clocked(m, header) };
    assert(c.enabled && c.fold_empty == m.fold_empty && !c.stopped) by {
        reveal(Model::advance_clock);
    }
    lemma_recorded(
        c,
        header[3] & HEADER_OVERFLOW != 0,
        header[3] & HEADER_CRC_ERROR != 0,
        header[3] & HEADER_DATA_ERROR != 0,
    );
}

proof fn lemma_recorded(m: Model, overflow: bool, crc_error: bool, phy_error: bool)
    requires
        m.enabled,
        !m.stopped,
        m.frame.len() > 0,
        !m.fold_empty || crc_error || phy_error || (m.frame[0] != PID_SOF && m.frame[0] != PID_IN
            && m.frame[0] != PID_NAK),
    ensures
        ({
            let r = m.data_event(overflow, crc_error, phy_error);
            let packet = Record::Packet { ts: m.ts, data: m.frame };
            &&& r.log.contains(packet)
            &&& !r.stopped ==> r.log.last() == packet
        }),
{
    broadcast use {model::lemma_capture_info, model::lemma_stop_folding};

    reveal(Model::data_event);
    let data_error = crc_error || phy_error;
    let a = m.line_state_event();
    let b = if overflow || data_error || a.fold.len() == model::FOLD_BUF_SIZE {
        a.stop_folding()
    } else {
        a
    };
    let c = if overflow {
        b.capture_info(b.ts, "Hardware buffer overflow"@)
    } else {
        b
    };
    let d = if phy_error {
        c.capture_info(c.ts, "USB PHY error"@)
    } else {
        c
    };
    let e = d.record_packet(data_error);
    let packet = Record::Packet { ts: m.ts, data: m.frame };
    assert(e.log.len() > 0 && e.log.last() == packet);
    assert(e.log[e.log.len() - 1] == packet);
    let f = Model { limit: 0, ..e };
    lemma_info_keeps(f, f.ts, "Capture limit reached"@);
    let k = e.log.len() - 1;
    if e.limit == 1 {
        assert(e.check_capture_limit().log[k] == packet);
    }
}

/// A message comes after what was recorded before.
proof fn lemma_info_keeps(m: Model, ts: int, text: Seq<char>)
    ensures
        m.log.len() <= m.capture_info(ts, text).log.len(),
        m.capture_info(ts, text).log.take(m.log.len() as int) == m.log,
        forall|k: int|
            0 <= k < m.log.len() ==> #[trigger] m.capture_info(ts, text).log[k] == m.log[k],
{
    let r = m.capture_info(ts, text);
    stream::lemma_info_grows(m, ts, text);
    let n = stream::bare(m).capture_info(ts, text);
    assert(r.log == m.log + n.log);
    assert(r.log.take(m.log.len() as int) =~= m.log);
}

/// While the capture waits for its trigger, data frames are not recorded and not counted.
pub proof fn law_nothing_recorded_before_trigger(m: Model, header: Seq<u8>, payload: Seq<u8>)
    requires
        between_frames(m),
        !m.enabled,
        header.len() == DATA_HEADER_SIZE,
        header[0] & HEADER_STATUS != 0,
        in_sync(m, header),
        payload.len() > 0,
        model::data_size(header) == DATA_HEADER_SIZE + payload.len() <= MAX_DATA_SIZE,
    ensures
        ({
            let r = m.process_bytes(header + payload);
            &&& r.log == m.log
            &&& r.limit == m.limit
            &&& r.fold == m.fold
            &&& r.fold_count == m.fold_count
            &&& !r.stopped
        }),
{
    law_data_frame(m, header, payload);
    reveal(Model::advance_clock);
    reveal(Model::data_event);
}

/// Each data frame counts once toward the limit, folded or not, and the one that reaches the
/// limit ends the capture. A capture without a limit, or with a limit of zero, goes on.
pub proof fn law_limit(m: Model, header: Seq<u8>, payload: Seq<u8>)
    requires
        between_frames(m),
        m.enabled,
        header.len() == DATA_HEADER_SIZE,
        header[0] & HEADER_STATUS != 0,
        in_sync(m, header),
        payload.len() > 0,
        model::data_size(header) == DATA_HEADER_SIZE + payload.len() <= MAX_DATA_SIZE,
    ensures
        ({
            let r = m.process_bytes(header + payload);
            &&& m.limit >= 0 ==> r.limit == m.limit - 1
            &&& m.limit < 0 ==> r.limit == m.limit
            &&& r.stopped == (m.limit == 1)
        }),
{
    broadcast use {model::lemma_capture_info, model::lemma_stop_folding};

    law_data_frame(m, header, payload);
    reveal(Model::advance_clock);
    reveal(Model::data_event);
}

/// The byte completes a header that makes no sense: of the wrong toggle bit, with a zero bit
/// that is not zero, or of an impossible size.
pub open spec fn loses_sync(m: Model, byte: u8) -> bool {
    let header = m.frame.push(byte);
    &&& m.stage is Header
    &&& header.len() >= model::header_size(header[0])
    &&& {
        ||| !in_sync(m, header)
        ||| header[0] & HEADER_STATUS != 0 && !(DATA_HEADER_SIZE <= model::data_size(header)
            <= MAX_DATA_SIZE)
    }
}

/// A capture ends when it loses synchronization, and else only when its limit is reached.
pub proof fn law_end_of_capture(m: Model, byte: u8)
    requires
        !m.stopped,
    ensures
        loses_sync(m, byte) ==> m.process_byte(byte).stopped,
        m.process_byte(byte).stopped && !loses_sync(m, byte) ==> m.limit == 1 && m.process_byte(
            byte,
        ).limit == 0,
{
    broadcast use {
        model::lemma_capture_info,
        model::lemma_stop_folding,
        model::lemma_check_header,
        model::lemma_check_data_size,
    };

    reveal(Model::advance_clock);
    reveal(Model::header_event);
    reveal(Model::status_event);
    reveal(Model::data_event);
}

/// The record of an entry that waited.
pub open spec fn fold_record(entry: Fold) -> Record {
    match entry {
        Fold::Packet { ts, data } => Record::Packet { ts, data },
        Fold::Keepalive { ts, delta } => Record::Text { ts, text: "Keep-alive"@ },
    }
}

proof fn lemma_folds_written(m: Model, entries: Seq<Fold>)
    ensures
        m.write_folds(entries).log == m.log + entries.map_values(|e: Fold| fold_record(e)),
    decreases entries.len(),
{
    let records = entries.map_values(|e: Fold| fold_record(e));
    if entries.len() == 0 {
        assert(m.log + records =~= m.log);
    } else {
        lemma_folds_written(m, entries.drop_last());
        assert(m.log + records =~= (m.log + entries.drop_last().map_values(
            |e: Fold| fold_record(e),
        )).push(fold_record(entries.last())));
    }
}

/// When folding stops, the number of folded frames is recorded, if there are any, and then every
/// entry that waited, in order.
pub proof fn law_folding_stops(m: Model)
    ensures
        m.stop_folding().log == m.log + (if m.fold_count > 0 {
            seq![Record::Text { ts: m.ts, text: messages::folded(m.fold_count) }]
        } else {
            Seq::empty()
        }) + m.fold.map_values(|e: Fold| fold_record(e)),
{
    reveal(Model::stop_folding);
    let unfolded = Model { fold: Seq::empty(), fold_count: 0, ..m };
    let counted = if m.fold_count > 0 {
        unfolded.write_str(m.ts, messages::folded(m.fold_count))
    } else {
        unfolded
    };
    lemma_folds_written(counted, m.fold);
    assert(m.log.push(Record::Text { ts: m.ts, text: messages::folded(m.fold_count) }) =~= m.log
        + seq![Record::Text { ts: m.ts, text: messages::folded(m.fold_count) }]);
    assert(m.log + Seq::<Record>::empty() =~= m.log);
}

/// A frame that turns out to be empty when the next one starts is counted and not recorded.
pub proof fn law_empty_frame_folded(m: Model, header: Seq<u8>, payload: Seq<u8>)
    requires
        between_frames(m),
        m.enabled,
        m.fold_empty,
        m.speed != CaptureSpeed::LowSpeed,
        header.len() == DATA_HEADER_SIZE,
        header[0] & HEADER_STATUS != 0,
        header[3] & HEADER_OVERFLOW == 0,
        header[3] & HEADER_CRC_ERROR == 0,
        header[3] & HEADER_DATA_ERROR == 0,
        in_sync(m, header),
        payload.len() > 0,
        payload[0] == PID_SOF,
        model::data_size(header) == DATA_HEADER_SIZE + payload.len() <= MAX_DATA_SIZE,
        m.limit != 1,
        clocked(m, header).saved_ls == LS_INVALID,
        0 < clocked(m, header).fold.len() < model::FOLD_BUF_SIZE,
        clocked(m, header).fold_count + 1 != model::fold_limit(m.speed),
    ensures
        ({
            let c = clocked(m, header);
            let r = m.process_bytes(header + payload);
            &&& r.log == c.log
            &&& r.fold_count == c.fold_count + 1
            &&& r.fold == seq![Fold::Packet { ts: c.ts, data: payload }]
        }),
{
    broadcast use {model::lemma_capture_info, model::lemma_stop_folding};

    law_data_frame(m, header, payload);
    let c = clocked(m, header);
    assert(c.enabled && c.fold_empty && c.limit == m.limit && c.speed == m.speed) by {
        reveal(Model::advance_clock);
    }
    reveal(Model::data_event);
    let r = m.process_bytes(header + payload);
    assert(r.fold =~= seq![Fold::Packet { ts: c.ts, data: payload }]);
}

/// On a low-speed bus, SE0 for one to two microseconds and then J is a keep-alive pulse:
/// it is recorded as such, with the time of its start, and not as line states.
pub proof fn law_keepalive(m: Model)
    requires
        m.enabled,
        !m.fold_empty,
        m.limit != 1,
        !m.stopped,
        m.ls != LS_J3,
        m.ends_keepalive(LS_J3 as int),
    ensures
        ({
            let r = m.line_change(LS_J3 as int);
            &&& r.log == m.log.push(Record::Text { ts: m.saved_ts, text: "Keep-alive"@ })
            &&& r.ls == LS_J3
            &&& r.saved_ls == LS_INVALID
            &&& !r.stopped
        }),
{
}

} // verus!
