//! What holds of a capture at all times.

use vstd::prelude::*;

use crate::capture::{CaptureSpeed, CaptureTrigger};
use crate::model;
use crate::model::{Fold, Model, CLOCK_WRAP, PID_IN, PID_NAK, PID_SOF};

verus! {

/// What holds of a capture between two bytes holds after the next byte, until the capture ends.
pub proof fn law_invariant_kept(m: Model, byte: u8)
    requires
        m.wf(),
        !m.stopped,
    ensures
        m.process_byte(byte).sound(),
        !m.process_byte(byte).stopped ==> m.process_byte(byte).wf(),
{
    broadcast use {
        model::lemma_capture_info,
        model::lemma_stop_folding,
        model::lemma_check_header,
        model::lemma_check_data_size,
    };

    reveal(Model::advance_clock);
    reveal(Model::header_event);
    reveal(Model::status_event);
    reveal(Model::data_event);
    reveal(Model::check_header);
    reveal(Model::check_data_size);
}

/// An entry of a frame that has no data.
pub open spec fn may_be_folded(entry: Fold) -> bool {
    match entry {
        Fold::Packet { data, .. } => data.len() > 0 && (data[0] == PID_SOF || data[0] == PID_IN
            || data[0] == PID_NAK),
        Fold::Keepalive { .. } => true,
    }
}

/// Only frames without data are folded, and none if that is not asked for.
pub open spec fn folds_empty_frames(m: Model) -> bool {
    &&& forall|i: int| 0 <= i < m.fold.len() ==> may_be_folded(#[trigger] m.fold[i])
    &&& !m.fold_empty ==> m.fold.len() == 0 && m.fold_count == 0
}

/// Only frames without data are ever folded.
pub proof fn law_only_empty_frames_folded(m: Model, byte: u8)
    requires
        m.wf(),
        !m.stopped,
        folds_empty_frames(m),
    ensures
        folds_empty_frames(m.process_byte(byte)),
{
    broadcast use {
        model::lemma_capture_info,
        model::lemma_stop_folding,
        model::lemma_check_header,
        model::lemma_check_data_size,
    };

    reveal(Model::advance_clock);
    reveal(Model::header_event);
    reveal(Model::status_event);
    reveal(Model::data_event);
    reveal(Model::check_header);
    reveal(Model::check_data_size);
}

/// The packet or pulse that a frame starts with, at a speed.
pub open spec fn starts_frame(speed: CaptureSpeed, entry: Fold) -> bool {
    match entry {
        Fold::Packet { data, .. } => speed != CaptureSpeed::LowSpeed && data.len() > 0 && data[0]
            == PID_SOF,
        Fold::Keepalive { .. } => speed == CaptureSpeed::LowSpeed,
    }
}

/// A packet that is exchanged in a frame without data.
pub open spec fn carries_no_data(entry: Fold) -> bool {
    entry matches Fold::Packet { data, .. } && data.len() > 0 && (data[0] == PID_IN || data[0]
        == PID_NAK)
}

/// What waits is one frame: its start, and then packets without data. While frames are counted,
/// there is one that waits.
pub open spec fn one_frame_waits(m: Model) -> bool {
    &&& m.fold.len() > 0 ==> starts_frame(m.speed, m.fold[0])
    &&& forall|i: int| 1 <= i < m.fold.len() ==> carries_no_data(#[trigger] m.fold[i])
    &&& m.fold_count > 0 ==> m.fold.len() > 0
}

/// What waits is always one frame, from its start on.
pub proof fn law_one_frame_waits(m: Model, byte: u8)
    requires
        m.wf(),
        !m.stopped,
        one_frame_waits(m),
    ensures
        one_frame_waits(m.process_byte(byte)),
{
    broadcast use {
        model::lemma_capture_info,
        model::lemma_stop_folding,
        model::lemma_check_header,
        model::lemma_check_data_size,
    };

    reveal(Model::advance_clock);
    reveal(Model::header_event);
    reveal(Model::status_event);
    reveal(Model::data_event);
    reveal(Model::check_header);
    reveal(Model::check_data_size);
}

/// With a trigger on a level, the capture runs while the input has that level; without a trigger
/// it always runs.
pub open spec fn follows_level(m: Model) -> bool {
    match m.trigger {
        CaptureTrigger::Disabled => m.enabled,
        CaptureTrigger::Low => m.enabled == (m.trigger_in == 0),
        CaptureTrigger::High => m.enabled == (m.trigger_in == 1),
        CaptureTrigger::Falling => true,
        CaptureTrigger::Rising => true,
    }
}

/// The capture follows the level of the trigger input from its start on.
pub proof fn law_level_trigger(m: Model, byte: u8)
    requires
        !m.stopped,
        follows_level(m),
    ensures
        follows_level(m.process_byte(byte)),
{
    broadcast use {
        model::lemma_capture_info,
        model::lemma_stop_folding,
        model::lemma_check_header,
        model::lemma_check_data_size,
    };

    reveal(Model::advance_clock);
    reveal(Model::header_event);
    reveal(Model::status_event);
    reveal(Model::data_event);
    reveal(Model::check_header);
    reveal(Model::check_data_size);
}

/// With a trigger on an edge, the capture begins at that edge of the input and goes on.
pub proof fn law_edge_trigger(m: Model, byte: u8)
    requires
        !m.stopped,
        m.trigger == CaptureTrigger::Falling || m.trigger == CaptureTrigger::Rising,
    ensures
        ({
            let r = m.process_byte(byte);
            let edge = if m.trigger == CaptureTrigger::Falling {
                m.trigger_in == 1 && r.trigger_in == 0
            } else {
                m.trigger_in == 0 && r.trigger_in == 1
            };
            r.enabled == (m.enabled || edge)
        }),
{
    broadcast use {
        model::lemma_capture_info,
        model::lemma_stop_folding,
        model::lemma_check_header,
        model::lemma_check_data_size,
    };

    reveal(Model::advance_clock);
    reveal(Model::header_event);
    reveal(Model::status_event);
    reveal(Model::data_event);
    reveal(Model::check_header);
    reveal(Model::check_data_size);
}

/// The time that the wraps of the hardware clock count never goes back, and grows by at most one
/// wrap for each byte.
pub proof fn law_clock(m: Model, data: Seq<u8>)
    ensures
        m.ts_int <= m.process_bytes(data).ts_int <= m.ts_int + data.len() * CLOCK_WRAP,
{
    model::lemma_process_bytes_clock(m, data);
}

} // verus!
