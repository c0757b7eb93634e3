//! The time of the frames in a stream.

use vstd::prelude::*;

use crate::laws::frames;
use crate::laws::records;
use crate::laws::stream;
use crate::model;
use crate::model::Model;
use crate::pcapng::Record;

verus! {

/// A frame of the stream. The payload of a status frame is empty.
pub struct Frame {
    pub header: Seq<u8>,
    pub payload: Seq<u8>,
}

/// A status frame, or a data frame whose payload has the size that its header states.
pub open spec fn whole(f: Frame) -> bool {
    if f.header[0] < 128 {
        f.header.len() == 4 && f.payload.len() == 0
    } else {
        &&& f.header.len() == 7
        &&& 7 <= 256 * (f.header[3] as int % 8) + f.header[4] <= 1280
        &&& f.payload.len() == 256 * (f.header[3] as int % 8) + f.header[4] - 7
    }
}

/// Whole frames whose toggle bits alternate, the first one being `toggle`, and whose zero bits are
/// zero.
pub open spec fn in_order(frames: Seq<Frame>, toggle: int) -> bool {
    forall|i: int|
        0 <= i < frames.len() ==> {
            &&& whole(#[trigger] frames[i])
            &&& frames[i].header[0] as int / 64 % 2 == (toggle + i) % 2
            &&& frames[i].header[0] as int / 32 % 2 == 0
        }
}

/// The bytes of the frames.
pub open spec fn bytes_of(frames: Seq<Frame>) -> Seq<u8>
    decreases frames.len(),
{
    if frames.len() == 0 {
        Seq::empty()
    } else {
        bytes_of(frames.drop_last()) + frames.last().header + frames.last().payload
    }
}

/// How many of the frames report a wrap of the clock.
pub open spec fn wraps(frames: Seq<Frame>) -> int
    decreases frames.len(),
{
    if frames.len() == 0 {
        0
    } else {
        wraps(frames.drop_last()) + frames.last().header[0] as int / 16 % 2
    }
}

/// The twenty bits of the clock in a header.
pub open spec fn clock_bits(header: Seq<u8>) -> int {
    65536 * (header[0] as int % 16) + 256 * header[1] + header[2]
}

/// How one frame moves the clock.
spec fn moves_on(m: Model, f: Frame) -> bool {
    let r = m.process_bytes(f.header + f.payload);
    let c = frames::clocked(m, f.header);
    &&& !r.stopped ==> frames::between_frames(r)
    &&& r.toggle == 1 - m.toggle
    &&& r.ts == c.ts
    &&& r.ts_int == c.ts_int
}

proof fn lemma_status(m: Model, f: Frame)
    requires
        frames::between_frames(m),
        whole(f),
        f.header[0] < 128,
        records::fits(m, f.header),
        0 <= m.toggle <= 1,
    ensures
        moves_on(m, f),
{
    records::law_header(m, f.header);
    assert(f.header + f.payload =~= f.header);
    records::law_status_frame_records(m, f.header);
}

proof fn lemma_no_data(m: Model, f: Frame)
    requires
        frames::between_frames(m),
        whole(f),
        f.header[0] >= 128,
        f.payload.len() == 0,
        records::fits(m, f.header),
        0 <= m.toggle <= 1,
    ensures
        moves_on(m, f),
{
    records::law_header(m, f.header);
    assert(f.header + f.payload =~= f.header);
    records::lemma_same_fit(m, f.header);
    frames::law_empty_data_frame(m, f.header);
}

proof fn lemma_data(m: Model, f: Frame)
    requires
        frames::between_frames(m),
        whole(f),
        f.header[0] >= 128,
        f.payload.len() > 0,
        records::fits(m, f.header),
        0 <= m.toggle <= 1,
    ensures
        moves_on(m, f),
{
    records::law_header(m, f.header);
    records::law_data_frame_records(m, f.header, f.payload);
}

/// One frame.
proof fn lemma_frame(m: Model, f: Frame)
    requires
        frames::between_frames(m),
        whole(f),
        records::fits(m, f.header),
        0 <= m.toggle <= 1,
    ensures
        moves_on(m, f),
{
    if f.header[0] < 128 {
        lemma_status(m, f);
    } else if f.payload.len() == 0 {
        lemma_no_data(m, f);
    } else {
        lemma_data(m, f);
    }
}

/// The time of the last frame of a stream is the whole nanoseconds in its ticks, at 60 MHz: each
/// wrap of the clock that any of the frames has reported counts for 2^20 ticks, and the twenty
/// bits in the last header for the rest.
pub proof fn law_time_in_stream(m: Model, frames: Seq<Frame>)
    requires
        frames::between_frames(m),
        0 <= m.toggle <= 1,
        frames.len() > 0,
        in_order(frames, m.toggle),
        !m.process_bytes(bytes_of(frames)).stopped,
    ensures
        ({
            let r = m.process_bytes(bytes_of(frames));
            let t = m.ts_int + 0x10_0000 * wraps(frames) + clock_bits(frames.last().header);
            &&& 6 * r.ts <= 100 * t < 6 * r.ts + 6
            &&& r.ts_int == m.ts_int + 0x10_0000 * wraps(frames)
        }),
{
    lemma_frames(m, frames);
}

proof fn lemma_frames(m: Model, frames: Seq<Frame>)
    requires
        frames::between_frames(m),
        0 <= m.toggle <= 1,
        in_order(frames, m.toggle),
        !m.process_bytes(bytes_of(frames)).stopped,
    ensures
        ({
            let r = m.process_bytes(bytes_of(frames));
            let t = m.ts_int + 0x10_0000 * wraps(frames) + clock_bits(frames.last().header);
            &&& frames::between_frames(r)
            &&& r.toggle == (m.toggle + frames.len()) % 2
            &&& r.ts_int == m.ts_int + 0x10_0000 * wraps(frames)
            &&& frames.len() > 0 ==> 6 * r.ts <= 100 * t < 6 * r.ts + 6
        }),
    decreases frames.len(),
{
    if frames.len() > 0 {
        let before = frames.drop_last();
        let f = frames.last();
        let a = bytes_of(before);
        let n = m.process_bytes(a);
        let b = f.header + f.payload;
        assert(bytes_of(frames) =~= a + b);
        stream::law_bytes_join(m, a, b);
        if n.stopped {
            stream::law_stop_is_final(m, a, b);
        }
        assert(in_order(before, m.toggle)) by {
            assert forall|i: int| 0 <= i < before.len() implies {
                &&& whole(#[trigger] before[i])
                &&& before[i].header[0] as int / 64 % 2 == (m.toggle + i) % 2
                &&& before[i].header[0] as int / 32 % 2 == 0
            } by {
                assert(before[i] == frames[i]);
            }
        }
        lemma_frames(m, before);
        assert(whole(frames[frames.len() - 1]));
        lemma_frame(n, f);
        records::law_time(n, f.header);
    }
}

/// A packet that is not folded is recorded last, with the whole nanoseconds in the ticks of its
/// frame.
pub proof fn law_packet_time_in_stream(m: Model, frames: Seq<Frame>)
    requires
        frames::between_frames(m),
        0 <= m.toggle <= 1,
        !m.fold_empty,
        frames.len() > 0,
        frames.last().payload.len() > 0,
        in_order(frames, m.toggle),
        m.process_bytes(bytes_of(frames.drop_last())).enabled,
        !m.process_bytes(bytes_of(frames)).stopped,
    ensures
        ({
            let r = m.process_bytes(bytes_of(frames));
            let t = m.ts_int + 0x10_0000 * wraps(frames) + clock_bits(frames.last().header);
            &&& r.log.len() > 0
            &&& r.log.last() matches Record::Packet { ts, data } && data == frames.last().payload
                && 6 * ts <= 100 * t < 6 * ts + 6
        }),
{
    let before = frames.drop_last();
    let f = frames.last();
    let a = bytes_of(before);
    let n = m.process_bytes(a);
    let b = f.header + f.payload;
    assert(bytes_of(frames) =~= a + b);
    stream::law_bytes_join(m, a, b);
    if n.stopped {
        stream::law_stop_is_final(m, a, b);
    }
    assert(whole(frames[frames.len() - 1]));
    assert(in_order(before, m.toggle)) by {
        assert forall|i: int| 0 <= i < before.len() implies {
            &&& whole(#[trigger] before[i])
            &&& before[i].header[0] as int / 64 % 2 == (m.toggle + i) % 2
            &&& before[i].header[0] as int / 32 % 2 == 0
        } by {
            assert(before[i] == frames[i]);
        }
    }
    lemma_frames(m, before);
    lemma_frames(m, frames);
    lemma_frame(n, f);
    records::lemma_same_fit(n, f.header);
    lemma_settings(m, a);
    frames::law_packet_recorded(n, f.header, f.payload);
}

/// A stream does not change whether empty frames are folded.
proof fn lemma_settings(m: Model, data: Seq<u8>)
    ensures
        m.process_bytes(data).fold_empty == m.fold_empty,
    decreases data.len(),
{
    broadcast use {
        model::lemma_capture_info,
        model::lemma_stop_folding,
        model::lemma_check_header,
        model::lemma_check_data_size,
        model::lemma_status_event,
        model::lemma_data_event,
    };

    if data.len() > 0 {
        lemma_settings(m, data.drop_last());
        reveal(Model::advance_clock);
        reveal(Model::header_event);
    }
}

} // verus!
