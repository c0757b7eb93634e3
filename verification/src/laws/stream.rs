//! The records of a capture depend on the stream alone, and only grow.

use vstd::prelude::*;

use crate::model;
use crate::model::{Fold, Model, Stage, CLOCK_WRAP, HEADER_TOGGLE, HEADER_TS_OVERFLOW, LS_INVALID};
use crate::pcapng;
use crate::pcapng::Record;

verus! {

/// The same capture, with more records before its own.
pub open spec fn after(m: Model, before: Seq<Record>) -> Model {
    Model { log: before + m.log, ..m }
}

broadcast proof fn lemma_emit(m: Model, before: Seq<Record>, r: Record)
    ensures
        #[trigger] after(m, before).emit(r) == after(m.emit(r), before),
{
    assert((before + m.log).push(r) =~= before + m.log.push(r));
}

broadcast proof fn lemma_write_folds(m: Model, before: Seq<Record>, entries: Seq<Fold>)
    ensures
        #[trigger] after(m, before).write_folds(entries) == after(m.write_folds(entries), before),
    decreases entries.len(),
{
    broadcast use lemma_emit;

    if entries.len() > 0 {
        lemma_write_folds(m, before, entries.drop_last());
        let n = m.write_folds(entries.drop_last());
        match entries.last() {
            Fold::Packet { ts, data } => {
                lemma_emit(n, before, Record::Packet { ts, data });
            },
            Fold::Keepalive { ts, delta } => {
                lemma_emit(n, before, Record::Text { ts, text: "Keep-alive"@ });
            },
        }
    }
}

broadcast proof fn lemma_write_str(m: Model, before: Seq<Record>, ts: int, text: Seq<char>)
    ensures
        #[trigger] after(m, before).write_str(ts, text) == after(m.write_str(ts, text), before),
{
    lemma_emit(m, before, Record::Text { ts, text });
}

broadcast proof fn lemma_write_packet(m: Model, before: Seq<Record>, ts: int, data: Seq<u8>)
    ensures
        #[trigger] after(m, before).write_packet(ts, data) == after(
            m.write_packet(ts, data),
            before,
        ),
{
    lemma_emit(m, before, Record::Packet { ts, data });
}

broadcast proof fn lemma_line_state_event(m: Model, before: Seq<Record>)
    ensures
        #[trigger] after(m, before).line_state_event() == after(m.line_state_event(), before),
{
    broadcast use lemma_write_str;

    let n = Model { saved_ls: LS_INVALID as int, ..m };
    assert(Model { saved_ls: LS_INVALID as int, ..after(m, before) } == after(
        n,
        before,
    ));
}

broadcast proof fn lemma_stop_folding(m: Model, before: Seq<Record>)
    ensures
        #[trigger] after(m, before).stop_folding() == after(m.stop_folding(), before),
{
    broadcast use {lemma_write_str, lemma_write_folds};

    reveal(Model::stop_folding);
    let n = Model { fold: Seq::empty(), fold_count: 0, ..m };
    assert(Model { fold: Seq::empty(), fold_count: 0, ..after(m, before) } == after(n, before));
}

broadcast proof fn lemma_capture_info(m: Model, before: Seq<Record>, ts: int, text: Seq<char>)
    ensures
        #[trigger] after(m, before).capture_info(ts, text) == after(
            m.capture_info(ts, text),
            before,
        ),
{
    broadcast use {lemma_emit, lemma_write_str, lemma_line_state_event, lemma_stop_folding};

    reveal(Model::capture_info);
}

broadcast proof fn lemma_check_capture_limit(m: Model, before: Seq<Record>)
    ensures
        #[trigger] after(m, before).check_capture_limit() == after(m.check_capture_limit(), before),
{
    broadcast use lemma_capture_info;

    let n = Model { limit: 0, ..m };
    assert(Model { limit: 0, ..after(m, before) } == after(n, before));
}

broadcast proof fn lemma_count_folded(m: Model, before: Seq<Record>, limit: int)
    ensures
        #[trigger] after(m, before).count_folded(limit) == after(m.count_folded(limit), before),
{
    broadcast use lemma_stop_folding;

    let n = Model { fold_count: m.fold_count + 1, fold: Seq::empty(), ..m };
    assert(Model { fold_count: m.fold_count + 1, fold: Seq::empty(), ..after(m, before) } == after(
        n,
        before,
    ));
}

broadcast proof fn lemma_fold_entry(m: Model, before: Seq<Record>, entry: Fold)
    ensures
        #[trigger] after(m, before).fold_entry(entry) == after(m.fold_entry(entry), before),
{
}

broadcast proof fn lemma_keepalive_event(m: Model, before: Seq<Record>, ts: int, delta: int)
    ensures
        #[trigger] after(m, before).keepalive_event(ts, delta) == after(
            m.keepalive_event(ts, delta),
            before,
        ),
{
    broadcast use {
        lemma_write_str,
        lemma_check_capture_limit,
        lemma_count_folded,
        lemma_fold_entry,
    };

}

broadcast proof fn lemma_trigger_change(m: Model, before: Seq<Record>, trigger: int)
    ensures
        #[trigger] after(m, before).trigger_change(trigger) == after(
            m.trigger_change(trigger),
            before,
        ),
{
    broadcast use lemma_capture_info;

    let enabled = model::triggered(m.trigger, m.enabled, m.trigger_in, trigger);
    let n = Model { enabled, trigger_in: trigger, ..m };
    assert(Model { enabled, trigger_in: trigger, ..after(m, before) } == after(n, before));
}

broadcast proof fn lemma_vbus_change(m: Model, before: Seq<Record>, vbus: int)
    ensures
        #[trigger] after(m, before).vbus_change(vbus) == after(m.vbus_change(vbus), before),
{
    broadcast use lemma_capture_info;

    let n = Model { vbus, ..m };
    assert(Model { vbus, ..after(m, before) } == after(n, before));
}

broadcast proof fn lemma_speed_change(m: Model, before: Seq<Record>, speed: int)
    ensures
        #[trigger] after(m, before).speed_change(speed) == after(m.speed_change(speed), before),
{
    broadcast use lemma_capture_info;

    let n = Model { detected_speed: speed, ..m };
    assert(Model { detected_speed: speed, ..after(m, before) } == after(n, before));
}

broadcast proof fn lemma_line_change(m: Model, before: Seq<Record>, ls: int)
    ensures
        #[trigger] after(m, before).line_change(ls) == after(m.line_change(ls), before),
{
    broadcast use {lemma_line_state_event, lemma_keepalive_event};

    let n = Model { saved_ls: LS_INVALID as int, ..m };
    assert(Model { saved_ls: LS_INVALID as int, ..after(m, before) } == after(n, before));
}

broadcast proof fn lemma_status_event(
    m: Model,
    before: Seq<Record>,
    ls: int,
    vbus: int,
    trigger: int,
    speed: int,
)
    ensures
        #[trigger] after(m, before).status_event(ls, vbus, trigger, speed) == after(
            m.status_event(ls, vbus, trigger, speed),
            before,
        ),
{
    broadcast use {
        lemma_trigger_change,
        lemma_vbus_change,
        lemma_speed_change,
        lemma_line_change,
    };

    reveal(Model::status_event);
}

broadcast proof fn lemma_record_packet(m: Model, before: Seq<Record>, data_error: bool)
    ensures
        #[trigger] after(m, before).record_packet(data_error) == after(
            m.record_packet(data_error),
            before,
        ),
{
    broadcast use {lemma_write_packet, lemma_stop_folding, lemma_count_folded, lemma_fold_entry};

}

broadcast proof fn lemma_data_event(
    m: Model,
    before: Seq<Record>,
    overflow: bool,
    crc_error: bool,
    phy_error: bool,
)
    ensures
        #[trigger] after(m, before).data_event(overflow, crc_error, phy_error) == after(
            m.data_event(overflow, crc_error, phy_error),
            before,
        ),
{
    broadcast use {
        lemma_line_state_event,
        lemma_stop_folding,
        lemma_capture_info,
        lemma_record_packet,
        lemma_check_capture_limit,
    };

    reveal(Model::data_event);
}

broadcast proof fn lemma_desync_error(m: Model, before: Seq<Record>)
    ensures
        #[trigger] after(m, before).desync_error() == after(m.desync_error(), before),
{
    broadcast use lemma_capture_info;

}

broadcast proof fn lemma_check_header(m: Model, before: Seq<Record>, toggle: int, zero: int)
    ensures
        #[trigger] after(m, before).check_header(toggle, zero) == after(
            m.check_header(toggle, zero),
            before,
        ),
{
    broadcast use {lemma_capture_info, lemma_desync_error};

    reveal(Model::check_header);
}

broadcast proof fn lemma_check_data_size(m: Model, before: Seq<Record>, size: int)
    ensures
        #[trigger] after(m, before).check_data_size(size) == after(
            m.check_data_size(size),
            before,
        ),
{
    broadcast use {lemma_capture_info, lemma_desync_error};

    reveal(Model::check_data_size);
}

broadcast proof fn lemma_advance_clock(m: Model, before: Seq<Record>)
    ensures
        #[trigger] after(m, before).advance_clock() == after(m.advance_clock(), before),
{
    broadcast use lemma_capture_info;

    reveal(Model::advance_clock);
    let ts_int = if m.frame[0] & HEADER_TS_OVERFLOW != 0 {
        m.ts_int + CLOCK_WRAP
    } else {
        m.ts_int
    };
    let ts = model::nanoseconds(ts_int + model::clock(m.frame));
    let toggle = 1 - model::flag(m.frame[0], HEADER_TOGGLE);
    let n = Model { ts_int, ts, toggle, ..m };
    assert(Model { ts_int, ts, toggle, ..after(m, before) } == after(n, before));
}

broadcast proof fn lemma_header_event(m: Model, before: Seq<Record>)
    ensures
        #[trigger] after(m, before).header_event() == after(m.header_event(), before),
{
    broadcast use {lemma_status_event, lemma_check_data_size};

    reveal(Model::header_event);
}

proof fn lemma_process_byte(m: Model, before: Seq<Record>, byte: u8)
    ensures
        after(m, before).process_byte(byte) == after(m.process_byte(byte), before),
{
    broadcast use {
        lemma_data_event,
        lemma_check_header,
        lemma_advance_clock,
        lemma_header_event,
    };

    let n = Model { frame: m.frame.push(byte), ..m };
    assert(Model { frame: m.frame.push(byte), ..after(m, before) } == after(n, before));
    let k = Model { stage: Stage::Header, ..n };
    assert(Model { stage: Stage::Header, ..after(n, before) } == after(k, before));
}

proof fn lemma_process(m: Model, before: Seq<Record>, data: Seq<u8>)
    ensures
        after(m, before).process_bytes(data) == after(m.process_bytes(data), before),
        after(m, before).process(data) == after(m.process(data), before),
    decreases data.len(),
{
    broadcast use lemma_emit;

    if data.len() > 0 {
        lemma_process(m, before, data.drop_last());
        lemma_process_byte(m.process_bytes(data.drop_last()), before, data.last());
    }
}

/// The capture without its records.
pub open spec fn bare(m: Model) -> Model {
    Model { log: Seq::empty(), ..m }
}

/// A message is recorded after what was recorded before.
pub proof fn lemma_info_grows(m: Model, ts: int, text: Seq<char>)
    ensures
        m.capture_info(ts, text) == after(bare(m).capture_info(ts, text), m.log),
{
    assert(after(bare(m), m.log).log =~= m.log);
    lemma_capture_info(bare(m), m.log, ts, text);
}

/// What a capture does with a chunk does not depend on what was recorded before: the records
/// stay as they are, and the new ones come after them.
pub proof fn law_records_grow(m: Model, data: Seq<u8>)
    ensures
        m.process(data) == after(bare(m).process(data), m.log),
{
    assert(after(bare(m), m.log).log =~= m.log);
    lemma_process(bare(m), m.log, data);
}

/// Processing bytes and then others is processing them all.
pub proof fn law_bytes_join(m: Model, a: Seq<u8>, b: Seq<u8>)
    ensures
        m.process_bytes(a + b) == m.process_bytes(a).process_bytes(b),
    decreases b.len(),
{
    if b.len() == 0 {
        assert(a + b =~= a);
    } else {
        law_bytes_join(m, a, b.drop_last());
        assert((a + b).drop_last() =~= a + b.drop_last());
    }
}

/// Two captures that differ at most in when their records are flushed.
pub open spec fn same_file(a: Model, b: Model) -> bool {
    &&& bare(a) == bare(b)
    &&& pcapng::encode_all(a.log) == pcapng::encode_all(b.log)
}

/// Chunks of a stream, one after another.
pub open spec fn process_chunks(m: Model, chunks: Seq<Seq<u8>>) -> Model
    decreases chunks.len(),
{
    if chunks.len() == 0 {
        m
    } else {
        process_chunks(m, chunks.drop_last()).process(chunks.last())
    }
}

/// The stream that chunks make up.
pub open spec fn joined(chunks: Seq<Seq<u8>>) -> Seq<u8>
    decreases chunks.len(),
{
    if chunks.len() == 0 {
        Seq::empty()
    } else {
        joined(chunks.drop_last()) + chunks.last()
    }
}

proof fn lemma_encode_add(a: Seq<Record>, b: Seq<Record>)
    ensures
        pcapng::encode_all(a + b) == pcapng::encode_all(a) + pcapng::encode_all(b),
    decreases b.len(),
{
    if b.len() == 0 {
        assert(a + b =~= a);
        assert(pcapng::encode_all(a) + pcapng::encode_all(b) =~= pcapng::encode_all(a));
    } else {
        lemma_encode_add(a, b.drop_last());
        assert((a + b).drop_last() =~= a + b.drop_last());
        assert(pcapng::encode_all(a + b) =~= pcapng::encode_all(a) + pcapng::encode_all(b));
    }
}

/// Captures of the same file stay so.
proof fn lemma_same_file(a: Model, b: Model, data: Seq<u8>)
    requires
        same_file(a, b),
    ensures
        same_file(a.process(data), b.process_bytes(data)),
{
    let n = bare(a);
    assert(after(n, a.log).log =~= a.log);
    assert(after(n, b.log).log =~= b.log);
    assert(after(n, a.log) == a);
    assert(after(n, b.log) == b);
    lemma_process(n, a.log, data);
    lemma_process(n, b.log, data);
    lemma_encode_add(a.log, n.process(data).log);
    lemma_encode_add(b.log, n.process_bytes(data).log);
    let l = n.process_bytes(data).log;
    assert(l.push(Record::Flush).drop_last() =~= l);
    assert(pcapng::encode_all(l.push(Record::Flush)) =~= pcapng::encode_all(l));
}

/// The capture file does not depend on the chunks that the stream comes in.
pub proof fn law_chunks_do_not_matter(m: Model, chunks: Seq<Seq<u8>>)
    ensures
        same_file(process_chunks(m, chunks), m.process_bytes(joined(chunks))),
    decreases chunks.len(),
{
    if chunks.len() > 0 {
        let before = joined(chunks.drop_last());
        law_chunks_do_not_matter(m, chunks.drop_last());
        lemma_same_file(
            process_chunks(m, chunks.drop_last()),
            m.process_bytes(before),
            chunks.last(),
        );
        law_bytes_join(m, before, chunks.last());
    }
}

/// The last record is a flush.
pub open spec fn ends_flushed(m: Model) -> bool {
    &&& m.log.len() > 0
    &&& m.log.last() is Flush
}

broadcast proof fn lemma_info_flushes(m: Model, ts: int, text: Seq<char>)
    ensures
        ends_flushed(#[trigger] m.capture_info(ts, text)),
{
    reveal(Model::capture_info);
}

broadcast proof fn lemma_limit_flushes(m: Model)
    requires
        !m.stopped,
    ensures
        (#[trigger] m.check_capture_limit()).stopped ==> ends_flushed(m.check_capture_limit()),
{
    broadcast use lemma_info_flushes;

}

proof fn lemma_stop_flushes(m: Model, byte: u8)
    requires
        !m.stopped,
        m.process_byte(byte).stopped,
    ensures
        ends_flushed(m.process_byte(byte)),
{
    broadcast use {
        lemma_info_flushes,
        lemma_limit_flushes,
        model::lemma_stop_folding,
        model::lemma_capture_info,
        model::lemma_advance_clock,
    };

    reveal(Model::check_header);
    reveal(Model::check_data_size);
    reveal(Model::header_event);
    reveal(Model::status_event);
    reveal(Model::data_event);
}

proof fn lemma_all_flushed(m: Model, data: Seq<u8>)
    requires
        !m.stopped,
    ensures
        m.process_bytes(data).stopped ==> ends_flushed(m.process_bytes(data)),
    decreases data.len(),
{
    if data.len() > 0 {
        let n = m.process_bytes(data.drop_last());
        lemma_all_flushed(m, data.drop_last());
        if !n.stopped && n.process_byte(data.last()).stopped {
            lemma_stop_flushes(n, data.last());
        }
    }
}

/// After a chunk, everything is flushed that was recorded so far, whether or not the chunk
/// ended the capture.
pub proof fn law_chunk_flushed(m: Model, data: Seq<u8>)
    requires
        !m.stopped,
    ensures
        pcapng::flush_point(m.process(data).log) == pcapng::encode_all(m.process(data).log).len(),
{
    lemma_all_flushed(m, data);
}

/// Once the capture is over, the rest of the stream is ignored.
pub proof fn law_stop_is_final(m: Model, a: Seq<u8>, b: Seq<u8>)
    requires
        m.process_bytes(a).stopped,
    ensures
        m.process_bytes(a + b) == m.process_bytes(a),
{
    assert((a + b).take(a.len() as int) =~= a);
    model::lemma_process_bytes_stopped(m, a + b, a.len() as int);
}

} // verus!
