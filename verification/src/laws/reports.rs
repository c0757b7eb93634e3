//! Line states and folded frames: when they are reported, and when not.

use vstd::prelude::*;

use crate::capture::CaptureSpeed;
use crate::laws::frames;
use crate::laws::records;
use crate::messages;
use crate::model::{Fold, Model};
use crate::pcapng::Record;

verus! {

/// A data frame that the capture accepts next, with its payload.
pub open spec fn next_data_frame(m: Model, header: Seq<u8>, payload: Seq<u8>) -> bool {
    &&& frames::between_frames(m)
    &&& header.len() == 7
    &&& header[0] >= 128
    &&& header[0] as int / 64 % 2 == m.toggle
    &&& header[0] as int / 32 % 2 == 0
    &&& payload.len() > 0
    &&& 256 * (header[3] as int % 8) + header[4] == 7 + payload.len() <= 1280
}

/// A status frame that the capture accepts next.
pub open spec fn next_status_frame(m: Model, header: Seq<u8>) -> bool {
    &&& frames::between_frames(m)
    &&& header.len() == 4
    &&& header[0] < 128
    &&& header[0] as int / 64 % 2 == m.toggle
    &&& header[0] as int / 32 % 2 == 0
}

/// No error flag is set: neither for an overflow, nor for the checksum, nor for the PHY.
pub open spec fn error_free(header: Seq<u8>) -> bool {
    header[3] as int / 8 % 8 == 0
}

/// `log` goes on after `before` with `next`.
pub open spec fn goes_on_with(before: Seq<Record>, log: Seq<Record>, next: Record) -> bool {
    &&& before.is_prefix_of(log)
    &&& before.len() < log.len()
    &&& log[before.len() as int] == next
}

/// `m` has a line state that is not recorded yet, and its record is `r`.
pub open spec fn line_state_due(m: Model, r: Record) -> bool {
    &&& m.saved_ls != -1
    &&& r matches Record::Text { ts, text } && ts == m.saved_ts && text == messages::line_state(
        m.saved_ls,
        m.speed == CaptureSpeed::LowSpeed,
        if m.ts > m.saved_ts {
            m.ts - m.saved_ts
        } else {
            0
        },
    )
}

/// When a packet is recorded or waits, the line state that was not recorded yet comes first, with
/// the time at which it began and its duration up to the frame.
pub proof fn law_line_state_before_packet(m: Model, header: Seq<u8>, payload: Seq<u8>, r: Record)
    requires
        next_data_frame(m, header, payload),
        m.enabled,
        line_state_due(frames::clocked(m, header), r),
    ensures
        goes_on_with(
            frames::clocked(m, header).log,
            m.process_bytes(header + payload).log,
            r,
        ),
        m.process_bytes(header + payload).saved_ls == -1,
{
    records::law_data_frame_records(m, header, payload);
    let c = frames::clocked(m, header);
    assert(records::pending_line_state(c) =~= seq![r]);
    assert(records::pending_line_state(c)[0] == r);
}

/// While packets are not recorded, a data frame leaves the line state to be recorded later.
pub proof fn law_line_state_stays(m: Model, header: Seq<u8>, payload: Seq<u8>)
    requires
        next_data_frame(m, header, payload),
        !m.enabled,
    ensures
        ({
            let n = m.process_bytes(header + payload);
            &&& n.log == m.log
            &&& n.saved_ls == m.saved_ls
            &&& n.saved_ts == m.saved_ts
            &&& n.fold == m.fold
            &&& n.fold_count == m.fold_count
            &&& n.limit == m.limit
            &&& !n.stopped
        }),
{
    records::law_data_frame_records(m, header, payload);
    records::law_header(m, header);
}

/// A line state that ends is recorded first, before any message of the same status frame. The
/// exception is a keep-alive pulse, which is no line state.
pub proof fn law_line_state_ends(m: Model, header: Seq<u8>, r: Record)
    requires
        next_status_frame(m, header),
        line_state_due(frames::clocked(m, header), r),
        header[3] as int % 16 != m.ls,
        !(m.speed == CaptureSpeed::LowSpeed && m.saved_ls == 0 && header[3] as int % 16 == 12
            && 1000 <= frames::clocked(m, header).ts - m.saved_ts <= 2000),
    ensures
        ({
            let c = frames::clocked(m, header);
            let n = m.process_bytes(header);
            &&& goes_on_with(c.log, n.log, r)
            &&& n.saved_ls == header[3] as int % 16
            &&& n.saved_ts == c.ts
            &&& !n.stopped
        }),
{
    records::law_status_frame_records(m, header);
    records::law_header(m, header);
    let c = frames::clocked(m, header);
    assert(records::pending_line_state(c) =~= seq![r]);
    assert(records::pending_line_state(c)[0] == r);
}

/// When the lines change and no line state is due, the new one is: it has begun with the frame.
pub proof fn law_line_state_begins(m: Model, header: Seq<u8>)
    requires
        next_status_frame(m, header),
        frames::clocked(m, header).saved_ls == -1,
        header[3] as int % 16 != m.ls,
    ensures
        ({
            let n = m.process_bytes(header);
            &&& n.ls == header[3] as int % 16
            &&& n.saved_ls == header[3] as int % 16
            &&& n.saved_ts == frames::clocked(m, header).ts
            &&& !n.stopped
        }),
{
    records::law_status_frame_records(m, header);
    records::law_header(m, header);
}

/// A line state that goes on is recorded only before a message of the same status frame. Without
/// a message nothing is recorded, and the line state is still due.
pub proof fn law_line_state_goes_on(m: Model, header: Seq<u8>)
    requires
        next_status_frame(m, header),
        header[3] as int % 16 == m.ls,
    ensures
        ({
            let c = frames::clocked(m, header);
            let n = m.process_bytes(header);
            let b3 = header[3] as int;
            &&& !n.stopped
            &&& b3 / 16 % 2 == c.vbus && b3 / 32 % 2 == c.trigger_in && b3 / 64
                == c.detected_speed ==> n.log == c.log && n.saved_ls == c.saved_ls && n.saved_ts
                == c.saved_ts && n.fold == c.fold && n.fold_count == c.fold_count
            &&& b3 / 16 % 2 != c.vbus || b3 / 32 % 2 != c.trigger_in ==> n.saved_ls == -1
                && n.fold.len() == 0 && n.fold_count == 0 && (forall|r: Record|
                line_state_due(c, r) ==> #[trigger] goes_on_with(c.log, n.log, r))
        }),
{
    records::law_status_frame_records(m, header);
    records::law_header(m, header);
    let c = frames::clocked(m, header);
    let n = m.process_bytes(header);
    let b3 = header[3] as int;
    assert forall|r: Record|
        line_state_due(c, r) && (b3 / 16 % 2 != c.vbus || b3 / 32 % 2
            != c.trigger_in) implies #[trigger] goes_on_with(c.log, n.log, r) by {
        assert(records::pending_line_state(c) =~= seq![r]);
        assert(records::pending_line_state(c)[0] == r);
    }
}

/// A message that is due when a header arrives comes after the line state that was not recorded
/// yet. Without such a message the header records nothing, and everything still waits.
pub proof fn law_line_state_at_header(m: Model, header: Seq<u8>)
    requires
        header.len() >= 4,
    ensures
        ({
            let c = frames::clocked(m, header);
            let n = Model { ts: c.ts, ..m };
            if m.enabled && c.ts - m.last_ts >= 2_000_000_000 {
                &&& c.saved_ls == -1
                &&& c.fold.len() == 0
                &&& c.fold_count == 0
                &&& m.log.is_prefix_of(c.log)
                &&& c.log.len() >= m.log.len() + 2
                &&& c.log[c.log.len() - 2] == (Record::Text {
                    ts: c.ts,
                    text: "Periodic update"@,
                })
                &&& c.log[c.log.len() - 1] is Flush
                &&& forall|r: Record|
                    line_state_due(n, r) ==> #[trigger] goes_on_with(m.log, c.log, r)
            } else {
                &&& c.log == m.log
                &&& c.saved_ls == m.saved_ls
                &&& c.saved_ts == m.saved_ts
                &&& c.fold == m.fold
                &&& c.fold_count == m.fold_count
            }
        }),
{
    records::law_header(m, header);
    let c = frames::clocked(m, header);
    let n = Model { ts: c.ts, ..m };
    let note = records::note(c.ts, "Periodic update"@);
    let texts = seq!["Periodic update"@];
    assert(texts.drop_last() =~= Seq::<Seq<char>>::empty());
    assert(records::notes(c.ts, texts) =~= note) by {
        assert(records::notes(c.ts, texts.drop_last()) =~= Seq::<Record>::empty());
    }
    assert forall|r: Record|
        line_state_due(n, r) && m.enabled && c.ts - m.last_ts
            >= 2_000_000_000 implies #[trigger] goes_on_with(m.log, c.log, r) by {
        assert(records::pending_line_state(n) =~= seq![r]);
        assert(records::pending_line_state(n)[0] == r);
    }
}

/// While a frame waits that may be empty, IN and NAK packets wait with it, at any speed: nothing is
/// recorded and no frame is counted.
pub proof fn law_polls_wait(m: Model, header: Seq<u8>, payload: Seq<u8>)
    requires
        next_data_frame(m, header, payload),
        error_free(header),
        m.enabled,
        m.fold_empty,
        m.limit != 1,
        payload[0] == 0x69 || payload[0] == 0x5a,
        frames::clocked(m, header).saved_ls == -1,
        0 < frames::clocked(m, header).fold.len() < 256,
    ensures
        ({
            let c = frames::clocked(m, header);
            let n = m.process_bytes(header + payload);
            &&& n.log == c.log
            &&& n.fold == c.fold.push(Fold::Packet { ts: c.ts, data: payload })
            &&& n.fold_count == c.fold_count
            &&& !n.stopped
        }),
{
    records::law_data_frame_records(m, header, payload);
    records::law_header(m, header);
    lemma_quiet(frames::clocked(m, header));
}

/// The next start of a frame makes the frame that waited an empty one: it is dropped and counted,
/// and the new frame waits. Every thousandth empty frame in a row, or at high speed every eight
/// thousandth, the count is recorded and begins again.
pub proof fn law_start_of_frame(m: Model, header: Seq<u8>, payload: Seq<u8>)
    requires
        next_data_frame(m, header, payload),
        error_free(header),
        m.enabled,
        m.fold_empty,
        m.limit != 1,
        m.speed != CaptureSpeed::LowSpeed,
        payload[0] == 0xa5,
        frames::clocked(m, header).saved_ls == -1,
        frames::clocked(m, header).fold.len() < 256,
        0 <= frames::clocked(m, header).fold_count,
    ensures
        ({
            let c = frames::clocked(m, header);
            let n = m.process_bytes(header + payload);
            let most: int = if m.speed == CaptureSpeed::HighSpeed {
                8000
            } else {
                1000
            };
            &&& n.fold == seq![Fold::Packet { ts: c.ts, data: payload }]
            &&& !n.stopped
            &&& if c.fold.len() == 0 {
                n.log == c.log && n.fold_count == c.fold_count
            } else if c.fold_count + 1 != most {
                n.log == c.log && n.fold_count == c.fold_count + 1
            } else {
                n.log == c.log.push(
                    Record::Text { ts: c.ts, text: messages::folded(most) },
                ) && n.fold_count == 0
            }
        }),
{
    records::law_data_frame_records(m, header, payload);
    records::law_header(m, header);
    lemma_quiet(frames::clocked(m, header));
}

/// Any other packet shows that the frame that waited is not empty: the count of empty frames before
/// it is recorded, then what waited, and then the packet.
pub proof fn law_frame_with_data(m: Model, header: Seq<u8>, payload: Seq<u8>)
    requires
        next_data_frame(m, header, payload),
        error_free(header),
        m.enabled,
        m.fold_empty,
        m.limit != 1,
        payload[0] != 0x69,
        payload[0] != 0x5a,
        payload[0] != 0xa5 || m.speed == CaptureSpeed::LowSpeed,
        frames::clocked(m, header).saved_ls == -1,
        0 < frames::clocked(m, header).fold.len(),
    ensures
        ({
            let c = frames::clocked(m, header);
            let n = m.process_bytes(header + payload);
            &&& n.log == c.log + (if c.fold_count > 0 {
                seq![Record::Text { ts: c.ts, text: messages::folded(c.fold_count) }]
            } else {
                Seq::empty()
            }) + c.fold.map_values(|e: Fold| frames::fold_record(e)) + seq![
                Record::Packet { ts: c.ts, data: payload },
            ]
            &&& n.fold.len() == 0
            &&& n.fold_count == 0
            &&& !n.stopped
        }),
{
    records::law_data_frame_records(m, header, payload);
    records::law_header(m, header);
    let c = frames::clocked(m, header);
    let n = m.process_bytes(header + payload);
    lemma_quiet(c);
    assert(n.log =~= c.log + records::waiting(c.ts, c.fold_count, c.fold) + seq![
        Record::Packet { ts: c.ts, data: payload },
    ]);
    assert(c.log + records::waiting(c.ts, c.fold_count, c.fold) =~= c.log + (if c.fold_count > 0 {
        seq![Record::Text { ts: c.ts, text: messages::folded(c.fold_count) }]
    } else {
        Seq::empty()
    }) + c.fold.map_values(|e: Fold| frames::fold_record(e)));
}

/// Nothing is added to the records of a capture without a pending line state.
proof fn lemma_quiet(c: Model)
    requires
        c.saved_ls == -1,
    ensures
        records::pending_line_state(c) == Seq::<Record>::empty(),
        c.log + Seq::<Record>::empty() == c.log,
{
    assert(c.log + Seq::<Record>::empty() =~= c.log);
}

/// On a low-speed bus a keep-alive pulse starts a frame: what waited is dropped and counted as an
/// empty frame, and the pulse waits. Every thousandth time the count is recorded.
pub proof fn law_pulse_starts_frame(m: Model, header: Seq<u8>)
    requires
        next_status_frame(m, header),
        m.enabled,
        m.fold_empty,
        m.limit != 1,
        m.speed == CaptureSpeed::LowSpeed,
        m.ls != 12,
        header[3] as int % 16 == 12,
        header[3] as int / 16 % 2 == m.vbus,
        header[3] as int / 32 % 2 == m.trigger_in,
        header[3] as int / 64 == m.detected_speed,
        frames::clocked(m, header).saved_ls == 0,
        1000 <= frames::clocked(m, header).ts - m.saved_ts <= 2000,
    ensures
        ({
            let c = frames::clocked(m, header);
            let n = m.process_bytes(header);
            &&& n.fold.len() == 1
            &&& n.fold[0] == (Fold::Keepalive { ts: m.saved_ts, delta: c.ts - m.saved_ts })
            &&& n.saved_ls == -1
            &&& !n.stopped
            &&& if c.fold.len() == 0 {
                n.log == c.log && n.fold_count == c.fold_count
            } else if c.fold_count + 1 != 1000 {
                n.log == c.log && n.fold_count == c.fold_count + 1
            } else {
                n.log == c.log.push(
                    Record::Text { ts: c.ts, text: messages::folded(1000) },
                ) && n.fold_count == 0
            }
        }),
{
    records::law_status_frame_records(m, header);
    records::law_header(m, header);
    let c = frames::clocked(m, header);
    assert(records::status_texts(c, header[3] as int) =~= Seq::<Seq<char>>::empty());
}

/// After an error, or when the buffer is full, nothing that came before waits any longer.
pub proof fn law_errors_end_the_wait(m: Model, header: Seq<u8>, payload: Seq<u8>)
    requires
        next_data_frame(m, header, payload),
        m.enabled,
        m.limit != 1,
        !error_free(header),
    ensures
        ({
            let c = frames::clocked(m, header);
            let n = m.process_bytes(header + payload);
            let texts = (if header[3] as int / 8 % 2 == 1 {
                seq![
                    Record::Text { ts: c.ts, text: "Hardware buffer overflow"@ },
                    Record::Flush,
                ]
            } else {
                Seq::empty()
            }) + (if header[3] as int / 32 % 2 == 1 {
                seq![Record::Text { ts: c.ts, text: "USB PHY error"@ }, Record::Flush]
            } else {
                Seq::empty()
            });
            let before = c.log + records::pending_line_state(c) + records::waiting(
                c.ts,
                c.fold_count,
                c.fold,
            ) + texts;
            &&& !n.stopped
            &&& n.fold_count == 0
            &&& n.fold.len() <= 1
            &&& n.fold.len() == 1 ==> n.log == before && n.fold[0] == (Fold::Packet {
                ts: c.ts,
                data: payload,
            })
            &&& n.fold.len() == 0 ==> n.log == before.push(
                Record::Packet { ts: c.ts, data: payload },
            )
            &&& n.fold.len() == 1 <==> (m.fold_empty && header[3] as int / 16 % 2 == 0
                && header[3] as int / 32 % 2 == 0 && payload[0] == 0xa5 && m.speed
                != CaptureSpeed::LowSpeed)
        }),
{
    records::law_data_frame_records(m, header, payload);
    records::law_header(m, header);
    let c = frames::clocked(m, header);
    let n = m.process_bytes(header + payload);
    let texts = (if header[3] as int / 8 % 2 == 1 {
        seq![Record::Text { ts: c.ts, text: "Hardware buffer overflow"@ }, Record::Flush]
    } else {
        Seq::empty()
    }) + (if header[3] as int / 32 % 2 == 1 {
        seq![Record::Text { ts: c.ts, text: "USB PHY error"@ }, Record::Flush]
    } else {
        Seq::empty()
    });
    let before = c.log + records::pending_line_state(c) + records::waiting(
        c.ts,
        c.fold_count,
        c.fold,
    ) + texts;
    assert(n.log =~= before || n.log =~= before.push(
        Record::Packet { ts: c.ts, data: payload },
    ));
}

/// Nothing happens before a header is complete.
pub proof fn law_part_of_header(m: Model, part: Seq<u8>)
    requires
        frames::between_frames(m),
        part.len() > 0,
        part.len() < (if part[0] < 128 {
            4int
        } else {
            7int
        }),
    ensures
        m.process_bytes(part) == (Model { frame: part, ..m }),
    decreases part.len(),
{
    let b = part[0];
    assert(b & 0x80 != 0 <==> b >= 128) by (bit_vector);
    let before = part.drop_last();
    if before.len() > 0 {
        law_part_of_header(m, before);
    } else {
        assert(before =~= Seq::empty());
        assert(m.process_bytes(before) == m);
    }
    assert(before.push(part.last()) =~= part);
}

/// A data frame without a packet only tells the time.
pub proof fn law_frame_without_packet(m: Model, header: Seq<u8>)
    requires
        frames::between_frames(m),
        header.len() == 7,
        header[0] >= 128,
        header[0] as int / 64 % 2 == m.toggle,
        header[0] as int / 32 % 2 == 0,
        256 * (header[3] as int % 8) + header[4] == 7,
    ensures
        m.process_bytes(header) == (Model { frame: Seq::empty(), ..frames::clocked(m, header) }),
{
    records::lemma_same_fit(m, header);
    frames::law_empty_data_frame(m, header);
}

/// A chunk of the stream is its bytes, one after another, and then a flush, unless the capture is
/// over.
pub proof fn law_chunk(m: Model, data: Seq<u8>)
    ensures
        ({
            let n = m.process_bytes(data);
            if n.stopped {
                m.process(data) == n
            } else {
                m.process(data) == (Model { log: n.log.push(Record::Flush), ..n })
            }
        }),
{
}

/// There is room for a chunk if its nanoseconds are computed without overflow even when each of
/// its bytes reports a wrap of the clock.
pub proof fn law_clock_room(m: Model, len: int)
    requires
        0 <= len,
    ensures
        m.has_clock_room(len) <==> 100 * (m.ts_int + 0x10_0000 * len + 0xf_ffff)
            <= 0xffff_ffff_ffff_ffff,
{
}

/// The line state is still due, and nothing was recorded.
pub open spec fn still_due(m: Model, n: Model) -> bool {
    &&& n.log == m.log
    &&& n.saved_ls == m.saved_ls
    &&& n.saved_ts == m.saved_ts
}

/// The record of the line state of `m`, at time `now`.
pub open spec fn line_state_record(m: Model, now: int) -> Record {
    Record::Text {
        ts: m.saved_ts,
        text: messages::line_state(
            m.saved_ls,
            m.speed == CaptureSpeed::LowSpeed,
            if now > m.saved_ts {
                now - m.saved_ts
            } else {
                0
            },
        ),
    }
}

/// The line state is the first thing that was recorded, and it is not due any more.
pub open spec fn recorded_first(m: Model, n: Model, now: int) -> bool {
    &&& goes_on_with(m.log, n.log, line_state_record(m, now))
    &&& n.saved_ls == -1 || n.saved_ts == now
}

proof fn lemma_grows(a: Seq<Record>, b: Seq<Record>, c: Seq<Record>, r: Record)
    requires
        goes_on_with(a, b, r),
        b.is_prefix_of(c),
    ensures
        goes_on_with(a, c, r),
{
    assert(b[a.len() as int] == c[a.len() as int]);
    assert(c.subrange(0, a.len() as int) =~= b.subrange(0, a.len() as int));
}

/// A data frame records the line state that is due before anything else, or leaves it due. It never
/// gets lost.
pub proof fn law_line_state_kept_by_data(m: Model, header: Seq<u8>, payload: Seq<u8>)
    requires
        next_data_frame(m, header, payload),
        m.saved_ls != -1,
    ensures
        ({
            let n = m.process_bytes(header + payload);
            let now = frames::clocked(m, header).ts;
            ||| still_due(m, n) && !m.enabled
            ||| recorded_first(m, n, now)
        }),
{
    let c = frames::clocked(m, header);
    let n = m.process_bytes(header + payload);
    let r = line_state_record(m, c.ts);
    if !m.enabled {
        law_line_state_stays(m, header, payload);
    } else {
        law_line_state_at_header(m, header);
        records::law_data_frame_records(m, header, payload);
        records::law_header(m, header);
        if c.ts - m.last_ts >= 2_000_000_000 {
            let k = Model { ts: c.ts, ..m };
            assert(line_state_due(k, r));
            assert(goes_on_with(m.log, c.log, r));
            assert(c.log.is_prefix_of(n.log));
            lemma_grows(m.log, c.log, n.log, r);
        } else {
            assert(line_state_due(c, r));
            law_line_state_before_packet(m, header, payload, r);
        }
    }
}

/// The line state that is due ends with a status frame as a keep-alive pulse: SE0 of one to two
/// microseconds on a low-speed bus.
pub open spec fn ends_as_pulse(m: Model, header: Seq<u8>, now: int) -> bool {
    &&& m.speed == CaptureSpeed::LowSpeed
    &&& m.saved_ls == 0
    &&& header[3] as int % 16 == 12
    &&& 1000 <= now - m.saved_ts <= 2000
}

/// A status frame records the line state that is due before anything else, or leaves it due, unless
/// it ends as a keep-alive pulse. It never gets lost.
pub proof fn law_line_state_kept_by_status(m: Model, header: Seq<u8>)
    requires
        next_status_frame(m, header),
        m.saved_ls != -1,
    ensures
        ({
            let n = m.process_bytes(header);
            let now = frames::clocked(m, header).ts;
            ||| still_due(m, n)
            ||| recorded_first(m, n, now)
            ||| ends_as_pulse(m, header, now) && n.saved_ls == -1
        }),
{
    let c = frames::clocked(m, header);
    let n = m.process_bytes(header);
    let r = line_state_record(m, c.ts);
    law_line_state_at_header(m, header);
    records::law_status_frame_records(m, header);
    records::law_header(m, header);
    let s = records::with_status(c, header[3] as int);
    let texts = records::status_texts(c, header[3] as int);
    if m.enabled && c.ts - m.last_ts >= 2_000_000_000 {
        let k = Model { ts: c.ts, ..m };
        assert(line_state_due(k, r));
        assert(goes_on_with(m.log, c.log, r));
        assert(c.log.is_prefix_of(s.log));
        assert(s.log.is_prefix_of(n.log));
        lemma_grows(m.log, c.log, s.log, r);
        lemma_grows(m.log, s.log, n.log, r);
    } else if texts.len() > 0 {
        assert(line_state_due(c, r));
        assert(records::pending_line_state(c) =~= seq![r]);
        assert(records::pending_line_state(c)[0] == r);
        assert(goes_on_with(c.log, s.log, r));
        assert(s.log.is_prefix_of(n.log));
        lemma_grows(m.log, s.log, n.log, r);
    } else {
        assert(records::pending_line_state(s) =~= seq![r]);
        assert(records::pending_line_state(s)[0] == r);
    }
}

} // verus!
