//! Capture of USB traffic: from the byte stream of the hardware to the capture file.

use vstd::prelude::*;
use vstd::string::*;

pub use crate::extcap::handle_extcap;
use crate::messages;
use crate::model;
use crate::model::{
    Fold, Model, Stage, CLOCK_MAX, CLOCK_WRAP, DATA_HEADER_SIZE, FOLD_BUF_SIZE, FOLD_LIMIT_HS,
    FOLD_LIMIT_LS_FS, HEADER_CRC_ERROR, HEADER_DATA_ERROR, HEADER_OVERFLOW, HEADER_STATUS,
    HEADER_TOGGLE, HEADER_TRIGGER, HEADER_TS_OVERFLOW, HEADER_VBUS, HEADER_ZERO,
    LINKTYPE_USB_2_0, LINKTYPE_USB_2_0_FULL_SPEED, LINKTYPE_USB_2_0_HIGH_SPEED,
    LINKTYPE_USB_2_0_LOW_SPEED, LINKTYPE_WIRESHARK_UPPER_PDU, LS_INVALID, LS_J3, LS_SE0,
    MAX_DATA_SIZE, MAX_KEEPALIVE_DURATION, MIN_KEEPALIVE_DURATION, PID_IN, PID_NAK, PID_SOF,
    STATUS_HEADER_SIZE, UPDATE_INTERVAL,
};
use crate::pcapng::{Output, PcapngBuf, Record};
use crate::usb;
use crate::usb::{Act, UsbDevice};

verus! {

broadcast use {
    model::lemma_stop_folding,
    model::lemma_capture_info,
    model::lemma_status_event,
    model::lemma_data_event,
    model::lemma_check_header,
    model::lemma_check_data_size,
    model::lemma_advance_clock,
    model::lemma_header_event,
};

/// The control bits of the capture hardware.
pub struct CaptureCtrl;

impl CaptureCtrl {
    /// Reset of the whole capture circuit.
    pub const RESET: u8 = 0;

    /// Capture on or off.
    pub const ENABLE: u8 = 1;

    /// Bit 0 of the capture speed.
    pub const SPEED0: u8 = 2;

    /// Bit 1 of the capture speed.
    pub const SPEED1: u8 = 3;

    /// Speed test on or off.
    pub const TEST: u8 = 4;
}

/// The speed of the bus that is captured.
#[derive(Clone, Copy, PartialEq, Eq, Structural, Debug)]
pub enum CaptureSpeed {
    LowSpeed,
    FullSpeed,
    HighSpeed,
    /// Detection of bus resets.
    Reset,
}

impl CaptureSpeed {
    /// The number that the capture hardware knows a speed by.
    pub open spec fn spec_code(self) -> u8 {
        match self {
            CaptureSpeed::LowSpeed => 0,
            CaptureSpeed::FullSpeed => 1,
            CaptureSpeed::HighSpeed => 2,
            CaptureSpeed::Reset => 3,
        }
    }

    /// The number that the capture hardware knows a speed by.
    pub fn code(self) -> (r: u8)
        ensures
            r == self.spec_code(),
    {
        match self {
            CaptureSpeed::LowSpeed => 0,
            CaptureSpeed::FullSpeed => 1,
            CaptureSpeed::HighSpeed => 2,
            CaptureSpeed::Reset => 3,
        }
    }
}

/// When packets are recorded.
#[derive(Clone, Copy, PartialEq, Eq, Structural, Debug)]
pub enum CaptureTrigger {
    /// Always.
    Disabled,
    /// While the trigger input is low.
    Low,
    /// While the trigger input is high.
    High,
    /// From the first falling edge of the trigger input.
    Falling,
    /// From the first rising edge of the trigger input.
    Rising,
}

/// Whether a capture goes on.
#[derive(Clone, Copy, PartialEq, Eq, Structural, Debug)]
pub enum Flow {
    Continue,
    /// The capture is over: its limit is reached, or the stream makes no sense any more.
    Stop,
}

/// An entry of a frame that may turn out to be empty.
enum FoldEntry {
    Packet { ts: u64, data: Vec<u8> },
    Keepalive { ts: u64, delta: i32 },
}

impl View for FoldEntry {
    type V = Fold;

    closed spec fn view(&self) -> Fold {
        match self {
            FoldEntry::Packet { ts, data } => Fold::Packet { ts: *ts as int, data: data@ },
            FoldEntry::Keepalive { ts, delta } => Fold::Keepalive {
                ts: *ts as int,
                delta: *delta as int,
            },
        }
    }
}

spec fn folds(entries: Seq<FoldEntry>) -> Seq<Fold> {
    entries.map_values(|e: FoldEntry| e@)
}

/// The state machine of a capture.
///
/// It takes the byte stream of the hardware, puts frames together, restores their time, follows
/// the state of the bus, folds empty frames, and writes what happened as pcapng.
pub struct CaptureState {
    /// The bytes received of the current header or payload.
    frame: Vec<u8>,
    in_header: bool,
    /// The size of the current payload.
    frame_size: usize,
    /// The toggle bit that the next header must have.
    toggle: u8,
    /// The last line state, or -1.
    ls: i32,
    /// The last state of the bus voltage, or -1.
    vbus: i32,
    /// The last state of the trigger input, or -1.
    trigger_in: i32,
    /// The last speed that the hardware detected, or -1.
    detected_speed: i32,
    enabled: bool,
    /// The ticks counted by wraps of the hardware clock.
    ts_int: u64,
    /// The time of the current frame, in nanoseconds.
    ts: u64,
    /// The time of the last record.
    last_ts: u64,
    overflow: bool,
    crc_error: bool,
    data_error: bool,
    duration: i32,
    fold_buf: Vec<FoldEntry>,
    fold_count: i32,
    /// A line state that is not recorded yet, or -1.
    saved_ls: i32,
    /// When that line state began.
    saved_ts: u64,
    speed: CaptureSpeed,
    trigger: CaptureTrigger,
    fold_empty: bool,
    /// Packets until the capture stops; never, when negative.
    limit: i64,
    pcapng: PcapngBuf,
}

impl CaptureState {
    /// The model of this capture, given the records so far and whether it is over.
    pub open spec fn model(&self, log: Seq<Record>, flow: Flow) -> Model {
        Model { log, stopped: flow == Flow::Stop, ..self.state() }
    }

    /// The model of this capture without any records.
    pub closed spec fn state(&self) -> Model {
        Model {
            speed: self.speed,
            trigger: self.trigger,
            fold_empty: self.fold_empty,
            limit: self.limit as int,
            stage: if self.in_header {
                Stage::Header
            } else {
                Stage::Payload {
                    size: self.frame_size as int,
                    overflow: self.overflow,
                    crc_error: self.crc_error,
                    data_error: self.data_error,
                    duration: self.duration as int,
                }
            },
            frame: self.frame@,
            toggle: self.toggle as int,
            ls: self.ls as int,
            vbus: self.vbus as int,
            trigger_in: self.trigger_in as int,
            detected_speed: self.detected_speed as int,
            enabled: self.enabled,
            ts_int: self.ts_int as int,
            ts: self.ts as int,
            last_ts: self.last_ts as int,
            fold: folds(self.fold_buf@),
            fold_count: self.fold_count as int,
            saved_ls: self.saved_ls as int,
            saved_ts: self.saved_ts as int,
            log: Seq::empty(),
            stopped: false,
        }
    }

    /// No block is half built.
    pub closed spec fn idle(&self) -> bool {
        self.pcapng@.len() == 0
    }

    /// The capture can take the next byte.
    pub open spec fn wf(&self) -> bool {
        &&& self.idle()
        &&& self.state().wf()
    }

    /// A capture that has received nothing.
    pub fn new(speed: CaptureSpeed, trigger: CaptureTrigger, fold_empty: bool, limit: i64) -> (r:
        Self)
        ensures
            r.wf(),
            r.state() == Model::initial(speed, trigger, fold_empty, limit as int, Seq::empty()),
    {
        let r = CaptureState {
            frame: Vec::new(),
            in_header: true,
            frame_size: 0,
            toggle: 0,
            ls: -1,
            vbus: -1,
            trigger_in: -1,
            detected_speed: -1,
            enabled: false,
            ts_int: 0,
            ts: 0,
            last_ts: 0,
            overflow: false,
            crc_error: false,
            data_error: false,
            duration: 0,
            fold_buf: Vec::new(),
            fold_count: 0,
            saved_ls: LS_INVALID,
            saved_ts: 0,
            speed,
            trigger,
            fold_empty,
            limit,
            pcapng: PcapngBuf::new(),
        };
        assert(folds(r.fold_buf@) =~= Seq::empty());
        r
    }

    /// Writes a USB packet.
    fn write_packet(&mut self, writer: &mut Output, ts: u64, data: &[u8])
        requires
            old(self).idle(),
            old(writer).wf(),
        ensures
            final(self).idle(),
            final(writer).wf(),
            final(self).model(final(writer).log(), Flow::Continue) == old(self).model(
                old(writer).log(),
                Flow::Continue,
            ).write_packet(ts as int, data@),
    {
        self.pcapng.write_packet(writer, ts, data);
        self.last_ts = ts;
    }

    /// Writes a message.
    fn write_str(&mut self, writer: &mut Output, ts: u64, s: &str)
        requires
            old(self).idle(),
            old(writer).wf(),
        ensures
            final(self).idle(),
            final(writer).wf(),
            final(self).model(final(writer).log(), Flow::Continue) == old(self).model(
                old(writer).log(),
                Flow::Continue,
            ).write_str(ts as int, s@),
    {
        self.pcapng.write_str(writer, ts, s);
        self.last_ts = ts;
    }

    /// The capture is sound and no block is half built.
    spec fn ready(&self) -> bool {
        &&& self.idle()
        &&& self.state().sound()
    }

    /// Records a keep-alive pulse.
    fn write_keepalive(&mut self, writer: &mut Output, ts: u64)
        requires
            old(self).ready(),
            old(writer).wf(),
        ensures
            final(self).ready(),
            final(writer).wf(),
            final(self).model(final(writer).log(), Flow::Continue) == old(self).model(
                old(writer).log(),
                Flow::Continue,
            ).write_keepalive(ts as int),
    {
        self.write_str(writer, ts, "Keep-alive");
    }

    /// Records the pending line state, if there is one.
    fn line_state_event(&mut self, writer: &mut Output)
        requires
            old(self).ready(),
            old(writer).wf(),
        ensures
            final(self).ready(),
            final(writer).wf(),
            final(self).model(final(writer).log(), Flow::Continue) == old(self).model(
                old(writer).log(),
                Flow::Continue,
            ).line_state_event(),
    {
        if self.saved_ls == LS_INVALID {
            return;
        }
        let saved_ls = self.saved_ls;
        let saved_ts = self.saved_ts;
        self.saved_ls = LS_INVALID;
        let delta = self.ts.saturating_sub(saved_ts);
        let msg = messages::line_state_message(
            saved_ls,
            self.speed == CaptureSpeed::LowSpeed,
            delta,
        );
        self.write_str(writer, saved_ts, msg.as_str());
    }

    /// Records the number of folded frames, then the entries that wait.
    fn stop_folding(&mut self, writer: &mut Output)
        requires
            old(self).idle(),
            old(writer).wf(),
        ensures
            final(self).idle(),
            final(writer).wf(),
            final(self).model(final(writer).log(), Flow::Continue) == old(self).model(
                old(writer).log(),
                Flow::Continue,
            ).stop_folding(),
    {
        reveal(Model::stop_folding);
        let count = self.fold_count;
        let mut entries: Vec<FoldEntry> = Vec::new();
        std::mem::swap(&mut entries, &mut self.fold_buf);
        self.fold_count = 0;
        assert(folds(self.fold_buf@) =~= Seq::empty());

        if count > 0 {
            let ts = self.ts;
            let msg = messages::folded_message(count);
            self.write_str(writer, ts, msg.as_str());
        }
        let ghost counted = self.model(writer.log(), Flow::Continue);
        let ghost waiting = folds(entries@);
        assert(waiting.take(0) =~= Seq::empty());
        let mut i: usize = 0;
        while i < entries.len()
            invariant
                self.idle(),
                writer.wf(),
                i <= entries@.len(),
                waiting == folds(entries@),
                self.model(writer.log(), Flow::Continue) == counted.write_folds(
                    waiting.take(i as int),
                ),
            decreases entries@.len() - i,
        {
            assert(waiting.take(i + 1).drop_last() =~= waiting.take(i as int));
            match &entries[i] {
                FoldEntry::Keepalive { ts, .. } => {
                    self.write_str(writer, *ts, "Keep-alive");
                },
                FoldEntry::Packet { ts, data } => {
                    self.write_packet(writer, *ts, data.as_slice());
                },
            }
            i += 1;
        }
        assert(waiting.take(i as int) =~= waiting);
    }

    /// Records a message after everything that waits, and flushes.
    fn capture_info(&mut self, writer: &mut Output, ts: u64, msg: &str)
        requires
            old(self).ready(),
            old(writer).wf(),
        ensures
            final(self).ready(),
            final(writer).wf(),
            final(self).model(final(writer).log(), Flow::Continue) == old(self).model(
                old(writer).log(),
                Flow::Continue,
            ).capture_info(ts as int, msg@),
    {
        reveal(Model::capture_info);
        self.line_state_event(writer);
        self.stop_folding(writer);
        self.write_str(writer, ts, msg);
        writer.flush();
    }

    /// Nothing was recorded for a while.
    fn timeout_event(&mut self, writer: &mut Output)
        requires
            old(self).ready(),
            old(writer).wf(),
        ensures
            final(self).ready(),
            final(writer).wf(),
            final(self).model(final(writer).log(), Flow::Continue) == old(self).model(
                old(writer).log(),
                Flow::Continue,
            ).timeout_event(),
    {
        if self.enabled {
            let ts = self.ts;
            self.capture_info(writer, ts, "Periodic update");
        }
    }

    /// Counts a packet against the limit.
    fn check_capture_limit(&mut self, writer: &mut Output) -> (flow: Flow)
        requires
            old(self).ready(),
            old(writer).wf(),
        ensures
            final(self).ready(),
            final(writer).wf(),
            final(self).model(final(writer).log(), flow) == old(self).model(
                old(writer).log(),
                Flow::Continue,
            ).check_capture_limit(),
    {
        if self.limit < 0 {
            return Flow::Continue;
        }
        self.limit -= 1;
        if self.limit == 0 {
            let ts = self.ts;
            self.capture_info(writer, ts, "Capture limit reached");
            return Flow::Stop;
        }
        Flow::Continue
    }

    /// Lets a packet wait.
    fn fold_packet(&mut self, ts: u64, data: &[u8])
        requires
            old(self).idle(),
        ensures
            final(self).idle(),
            final(self).state() == old(self).state().fold_entry(
                (Fold::Packet { ts: ts as int, data: data@ }),
            ),
    {
        let mut copy: Vec<u8> = Vec::new();
        copy.extend_from_slice(data);
        assert(copy@ =~= data@);
        self.fold_buf.push(FoldEntry::Packet { ts, data: copy });
        assert(folds(self.fold_buf@) =~= folds(old(self).fold_buf@).push(
            Fold::Packet { ts: ts as int, data: data@ },
        ));
    }

    /// Lets a keep-alive pulse wait.
    fn fold_keepalive(&mut self, ts: u64, delta: i32)
        requires
            old(self).idle(),
        ensures
            final(self).idle(),
            final(self).state() == old(self).state().fold_entry(
                (Fold::Keepalive { ts: ts as int, delta: delta as int }),
            ),
    {
        self.fold_buf.push(FoldEntry::Keepalive { ts, delta });
        assert(folds(self.fold_buf@) =~= folds(old(self).fold_buf@).push(
            Fold::Keepalive { ts: ts as int, delta: delta as int },
        ));
    }

    /// Drops the entries of an empty frame and counts it.
    fn count_folded(&mut self, writer: &mut Output, limit: i32)
        requires
            old(self).ready(),
            old(writer).wf(),
            limit == model::fold_limit(old(self).state().speed),
        ensures
            final(self).ready(),
            final(writer).wf(),
            final(self).model(final(writer).log(), Flow::Continue) == old(self).model(
                old(writer).log(),
                Flow::Continue,
            ).count_folded(limit as int),
    {
        self.fold_count += 1;
        self.fold_buf.clear();
        assert(folds(self.fold_buf@) =~= Seq::empty());
        if self.fold_count == limit {
            self.stop_folding(writer);
        }
    }

    /// A low-speed keep-alive pulse.
    fn keepalive_event(&mut self, writer: &mut Output, ts: u64, delta: i32) -> (flow: Flow)
        requires
            old(self).ready(),
            old(writer).wf(),
            old(self).state().speed == CaptureSpeed::LowSpeed,
        ensures
            final(self).ready(),
            final(writer).wf(),
            final(self).model(final(writer).log(), flow) == old(self).model(
                old(writer).log(),
                Flow::Continue,
            ).keepalive_event(ts as int, delta as int),
    {
        if !self.enabled {
            return Flow::Continue;
        }
        if !self.fold_empty {
            self.write_keepalive(writer, ts);
        } else if !self.fold_buf.is_empty() {
            self.count_folded(writer, FOLD_LIMIT_LS_FS);
            self.fold_keepalive(ts, delta);
        } else {
            self.fold_keepalive(ts, delta);
        }
        self.check_capture_limit(writer)
    }

    /// The trigger input is in state `trigger`.
    fn trigger_change(&mut self, writer: &mut Output, trigger: i32)
        requires
            old(self).ready(),
            old(writer).wf(),
            0 <= trigger <= 1,
        ensures
            final(self).ready(),
            final(writer).wf(),
            final(self).model(final(writer).log(), Flow::Continue) == old(self).model(
                old(writer).log(),
                Flow::Continue,
            ).trigger_change(trigger as int),
    {
        if self.trigger_in == trigger {
            return;
        }
        let was_enabled = self.enabled;
        self.enabled = match self.trigger {
            CaptureTrigger::Disabled => true,
            CaptureTrigger::Low => trigger == 0,
            CaptureTrigger::High => trigger == 1,
            CaptureTrigger::Falling => self.enabled || (trigger == 0 && self.trigger_in == 1),
            CaptureTrigger::Rising => self.enabled || (trigger == 1 && self.trigger_in == 0),
        };
        self.trigger_in = trigger;
        let ts = self.ts;
        let msg = messages::trigger_input_message(trigger);
        self.capture_info(writer, ts, msg.as_str());

        if self.enabled && !was_enabled {
            self.capture_info(writer, ts, "Starting capture");
        } else if was_enabled && !self.enabled {
            self.capture_info(writer, ts, "Waiting for a trigger");
        }
    }

    /// The bus voltage is in state `vbus`.
    fn vbus_change(&mut self, writer: &mut Output, vbus: i32)
        requires
            old(self).ready(),
            old(writer).wf(),
        ensures
            final(self).ready(),
            final(writer).wf(),
            final(self).model(final(writer).log(), Flow::Continue) == old(self).model(
                old(writer).log(),
                Flow::Continue,
            ).vbus_change(vbus as int),
    {
        if self.vbus != vbus {
            self.vbus = vbus;
            let ts = self.ts;
            self.capture_info(writer, ts, messages::vbus_message(vbus != 0));
        }
    }

    /// The hardware detects speed `speed`.
    fn speed_change(&mut self, writer: &mut Output, speed: i32)
        requires
            old(self).ready(),
            old(writer).wf(),
            0 <= speed <= 3,
        ensures
            final(self).ready(),
            final(writer).wf(),
            final(self).model(final(writer).log(), Flow::Continue) == old(self).model(
                old(writer).log(),
                Flow::Continue,
            ).speed_change(speed as int),
    {
        if self.detected_speed != speed {
            self.detected_speed = speed;
            if self.enabled {
                let ts = self.ts;
                self.capture_info(writer, ts, messages::detected_speed_message(speed));
            }
        }
    }

    /// The lines are in state `ls`.
    fn line_change(&mut self, writer: &mut Output, ls: i32) -> (flow: Flow)
        requires
            old(self).ready(),
            old(writer).wf(),
            0 <= ls <= 15,
        ensures
            final(self).ready(),
            final(writer).wf(),
            final(self).model(final(writer).log(), flow) == old(self).model(
                old(writer).log(),
                Flow::Continue,
            ).line_change(ls as int),
    {
        if self.ls == ls {
            return Flow::Continue;
        }
        let delta = self.ts.saturating_sub(self.saved_ts);

        // On a low-speed bus, a short SE0 that ends in J is a keep-alive pulse.
        if self.speed == CaptureSpeed::LowSpeed && self.saved_ls == LS_SE0 && ls == LS_J3 && delta
            >= MIN_KEEPALIVE_DURATION && delta <= MAX_KEEPALIVE_DURATION {
            let saved_ts = self.saved_ts;
            self.saved_ls = LS_INVALID;
            match self.keepalive_event(writer, saved_ts, delta as i32) {
                Flow::Stop => {
                    return Flow::Stop;
                },
                Flow::Continue => {},
            }
        } else {
            self.line_state_event(writer);
            self.saved_ls = ls;
            self.saved_ts = self.ts;
        }
        self.ls = ls;
        Flow::Continue
    }

    /// A status frame.
    fn status_event(
        &mut self,
        writer: &mut Output,
        ls: i32,
        vbus: i32,
        trigger: i32,
        speed: i32,
    ) -> (flow: Flow)
        requires
            old(self).ready(),
            old(writer).wf(),
            0 <= ls <= 15,
            0 <= trigger <= 1,
            0 <= speed <= 3,
        ensures
            final(self).ready(),
            final(writer).wf(),
            final(self).model(final(writer).log(), flow) == old(self).model(
                old(writer).log(),
                Flow::Continue,
            ).status_event(ls as int, vbus as int, trigger as int, speed as int),
    {
        reveal(Model::status_event);
        self.trigger_change(writer, trigger);
        self.vbus_change(writer, vbus);
        self.speed_change(writer, speed);
        self.line_change(writer, ls)
    }

    /// Records the packet in `frame`, or lets it wait.
    fn record_packet(&mut self, writer: &mut Output, data_error: bool)
        requires
            old(self).ready(),
            old(writer).wf(),
            old(self).state().frame.len() > 0,
            old(self).state().fold.len() < FOLD_BUF_SIZE,
        ensures
            final(self).ready(),
            final(writer).wf(),
            final(self).model(final(writer).log(), Flow::Continue) == old(self).model(
                old(writer).log(),
                Flow::Continue,
            ).record_packet(data_error),
    {
        let allow_sof = self.speed != CaptureSpeed::LowSpeed;
        let pid = self.frame[0];
        let ts = self.ts;
        let data = self.frame.clone();
        assert(data@ =~= self.frame@);

        if data_error || !self.fold_empty {
            self.write_packet(writer, ts, data.as_slice());
        } else if !self.fold_buf.is_empty() {
            if pid == PID_IN || pid == PID_NAK {
                self.fold_packet(ts, data.as_slice());
            } else if pid == PID_SOF && allow_sof {
                let limit = if self.speed == CaptureSpeed::HighSpeed {
                    FOLD_LIMIT_HS
                } else {
                    FOLD_LIMIT_LS_FS
                };
                self.count_folded(writer, limit);
                self.fold_packet(ts, data.as_slice());
            } else {
                self.stop_folding(writer);
                self.write_packet(writer, ts, data.as_slice());
            }
        } else if pid == PID_SOF && allow_sof {
            self.fold_packet(ts, data.as_slice());
        } else {
            self.write_packet(writer, ts, data.as_slice());
        }
    }

    /// A whole data frame, whose packet is in `frame`.
    fn data_event(
        &mut self,
        writer: &mut Output,
        overflow: bool,
        crc_error: bool,
        phy_error: bool,
    ) -> (flow: Flow)
        requires
            old(self).ready(),
            old(writer).wf(),
            old(self).state().frame.len() > 0,
        ensures
            final(self).ready(),
            final(writer).wf(),
            final(self).model(final(writer).log(), flow) == old(self).model(
                old(writer).log(),
                Flow::Continue,
            ).data_event(overflow, crc_error, phy_error),
    {
        reveal(Model::data_event);
        if !self.enabled {
            return Flow::Continue;
        }
        let data_error = crc_error || phy_error;
        let ts = self.ts;
        self.line_state_event(writer);
        if overflow || data_error || self.fold_buf.len() == FOLD_BUF_SIZE {
            self.stop_folding(writer);
        }
        if overflow {
            self.capture_info(writer, ts, "Hardware buffer overflow");
        }
        if phy_error {
            self.capture_info(writer, ts, "USB PHY error");
        }
        self.record_packet(writer, data_error);
        self.check_capture_limit(writer)
    }

    /// Reports the loss of synchronization; the capture is over.
    fn desync_error(&mut self, writer: &mut Output)
        requires
            old(self).ready(),
            old(writer).wf(),
        ensures
            final(self).ready(),
            final(writer).wf(),
            final(self).model(final(writer).log(), Flow::Stop) == old(self).model(
                old(writer).log(),
                Flow::Continue,
            ).desync_error(),
    {
        let ts = self.ts;
        self.capture_info(
            writer,
            ts,
            "Error: protocol desynchronization, stopping the capture",
        );
        let msg = messages::packet_header_message(self.frame.as_slice());
        self.capture_info(writer, ts, msg.as_str());
    }

    /// Checks the toggle bit and the zero bit of a header.
    fn check_header(&mut self, writer: &mut Output, toggle: u8, zero: u8) -> (flow: Flow)
        requires
            old(self).ready(),
            old(writer).wf(),
        ensures
            final(self).ready(),
            final(writer).wf(),
            final(self).model(final(writer).log(), flow) == old(self).model(
                old(writer).log(),
                Flow::Continue,
            ).check_header(toggle as int, zero as int),
    {
        reveal(Model::check_header);
        if toggle == self.toggle && zero == 0 {
            return Flow::Continue;
        }
        let ts = self.ts;
        if toggle != self.toggle {
            let msg = messages::wrong_toggle_message(toggle, self.toggle);
            self.capture_info(writer, ts, msg.as_str());
        }
        if zero != 0 {
            self.capture_info(writer, ts, "Error: zero bit in the header is not zero");
        }
        self.desync_error(writer);
        Flow::Stop
    }

    /// Checks the size of a data frame.
    fn check_data_size(&mut self, writer: &mut Output, size: usize) -> (flow: Flow)
        requires
            old(self).ready(),
            old(writer).wf(),
        ensures
            final(self).ready(),
            final(writer).wf(),
            final(self).model(final(writer).log(), flow) == old(self).model(
                old(writer).log(),
                Flow::Continue,
            ).check_data_size(size as int),
    {
        reveal(Model::check_data_size);
        if DATA_HEADER_SIZE <= size && size <= MAX_DATA_SIZE {
            return Flow::Continue;
        }
        let ts = self.ts;
        let msg = messages::invalid_size_message(size);
        self.capture_info(writer, ts, msg.as_str());
        self.desync_error(writer);
        Flow::Stop
    }

    /// Takes the time of the header in `frame`.
    fn advance_clock(&mut self, writer: &mut Output)
        requires
            old(self).ready(),
            old(writer).wf(),
            old(self).state().frame.len() >= STATUS_HEADER_SIZE,
            old(self).model(old(writer).log(), Flow::Continue).advance_clock().within_clock(),
        ensures
            final(self).ready(),
            final(writer).wf(),
            final(self).model(final(writer).log(), Flow::Continue) == old(self).model(
                old(writer).log(),
                Flow::Continue,
            ).advance_clock(),
    {
        reveal(Model::advance_clock);
        let first = self.frame[0];
        let clock = (first % 16) as u64 * 65536 + self.frame[1] as u64 * 256 + self.frame[2] as u64;
        if first & HEADER_TS_OVERFLOW != 0 {
            self.ts_int += CLOCK_WRAP;
        }
        // The hardware counts at 60 MHz.
        self.ts = (self.ts_int + clock) * 100 / 6;
        self.toggle = if first & HEADER_TOGGLE != 0 {
            0
        } else {
            1
        };
        if self.ts.saturating_sub(self.last_ts) >= UPDATE_INTERVAL {
            self.timeout_event(writer);
        }
    }

    /// A whole header in `frame`: a status frame, or the start of a data frame.
    fn header_event(&mut self, writer: &mut Output) -> (flow: Flow)
        requires
            old(self).ready(),
            old(writer).wf(),
            old(self).state().stage is Header,
            old(self).state().frame.len() > 0,
            old(self).state().frame.len() >= old(self).state().expected(),
        ensures
            final(self).ready(),
            final(writer).wf(),
            final(self).model(final(writer).log(), flow) == old(self).model(
                old(writer).log(),
                Flow::Continue,
            ).header_event(),
    {
        reveal(Model::header_event);
        let b3 = self.frame[3];
        if self.frame[0] & HEADER_STATUS == 0 {
            let ls = (b3 % 16) as i32;
            let vbus: i32 = if b3 & HEADER_VBUS != 0 {
                1
            } else {
                0
            };
            let trigger: i32 = if b3 & HEADER_TRIGGER != 0 {
                1
            } else {
                0
            };
            let speed = (b3 / 64) as i32;
            match self.status_event(writer, ls, vbus, trigger, speed) {
                Flow::Stop => {
                    return Flow::Stop;
                },
                Flow::Continue => {},
            }
        } else {
            let size = (b3 % 8) as usize * 256 + self.frame[4] as usize;
            match self.check_data_size(writer, size) {
                Flow::Stop => {
                    return Flow::Stop;
                },
                Flow::Continue => {},
            }
            self.frame_size = size - DATA_HEADER_SIZE;
            self.overflow = b3 & HEADER_OVERFLOW != 0;
            self.crc_error = b3 & HEADER_CRC_ERROR != 0;
            self.data_error = b3 & HEADER_DATA_ERROR != 0;
            self.duration = self.frame[5] as i32 * 256 + self.frame[6] as i32;
            self.in_header = self.frame_size == 0;
        }
        self.frame.clear();
        Flow::Continue
    }

    /// Puts one byte of the stream through the state machine.
    fn process_byte(&mut self, writer: &mut Output, byte: u8) -> (flow: Flow)
        requires
            old(self).wf(),
            old(writer).wf(),
            old(self).model(old(writer).log(), Flow::Continue).process_byte(byte).within_clock(),
        ensures
            final(self).idle(),
            flow == Flow::Continue ==> final(self).wf(),
            final(writer).wf(),
            final(self).model(final(writer).log(), flow) == old(self).model(
                old(writer).log(),
                Flow::Continue,
            ).process_byte(byte),
    {
        self.frame.push(byte);
        let expected = if !self.in_header {
            self.frame_size
        } else if self.frame[0] & HEADER_STATUS == 0 {
            STATUS_HEADER_SIZE
        } else {
            DATA_HEADER_SIZE
        };
        if self.frame.len() < expected {
            return Flow::Continue;
        }
        if self.in_header {
            let first = self.frame[0];
            let toggle: u8 = if first & HEADER_TOGGLE != 0 {
                1
            } else {
                0
            };
            let zero: u8 = if first & HEADER_ZERO != 0 {
                1
            } else {
                0
            };
            match self.check_header(writer, toggle, zero) {
                Flow::Stop => {
                    return Flow::Stop;
                },
                Flow::Continue => {},
            }
            self.advance_clock(writer);
            self.header_event(writer)
        } else {
            self.in_header = true;
            let overflow = self.overflow;
            let crc_error = self.crc_error;
            let data_error = self.data_error;
            match self.data_event(writer, overflow, crc_error, data_error) {
                Flow::Stop => {
                    return Flow::Stop;
                },
                Flow::Continue => {},
            }
            self.frame.clear();
            Flow::Continue
        }
    }

    /// Puts a chunk of the stream through the state machine, up to the byte at which the capture
    /// stops. What the chunk caused is flushed at its end, so that a reader sees it at once.
    pub fn process(&mut self, writer: &mut Output, data: &[u8]) -> (flow: Flow)
        requires
            old(self).wf(),
            old(writer).wf(),
            old(self).model(old(writer).log(), Flow::Continue).process_bytes(data@).within_clock(),
        ensures
            flow == Flow::Continue ==> final(self).wf(),
            final(writer).wf(),
            final(self).model(final(writer).log(), flow) == old(self).model(
                old(writer).log(),
                Flow::Continue,
            ).process(data@),
    {
        let ghost start = self.model(writer.log(), Flow::Continue);
        let mut i: usize = 0;
        assert(data@.take(0) =~= Seq::empty());
        while i < data.len()
            invariant
                i <= data@.len(),
                self.wf(),
                writer.wf(),
                start.process_bytes(data@).within_clock(),
                self.model(writer.log(), Flow::Continue) == start.process_bytes(
                    data@.take(i as int),
                ),
                start == old(self).model(old(writer).log(), Flow::Continue),
            decreases data@.len() - i,
        {
            proof {
                model::lemma_clock_grows(start, data@, i + 1);
                assert(data@.take(i + 1).drop_last() =~= data@.take(i as int));
            }
            let flow = self.process_byte(writer, data[i]);
            i += 1;
            if flow == Flow::Stop {
                proof {
                    model::lemma_process_bytes_stopped(start, data@, i as int);
                }
                return Flow::Stop;
            }
        }
        assert(data@.take(i as int) =~= data@);
        writer.flush();
        Flow::Continue
    }

    /// Whether `process` can take `len` more bytes, whatever they are, before the clock
    /// overflows; a capture comes to that after decades.
    pub fn can_process(&self, len: usize) -> (r: bool)
        ensures
            r == self.state().has_clock_room(len as int),
            r ==> forall|log: Seq<Record>, data: Seq<u8>|
                data.len() == len ==> #[trigger] self.model(log, Flow::Continue).process_bytes(
                    data,
                ).within_clock(),
    {
        let r = self.ts_int as u128 + (len as u128 + 1) * CLOCK_WRAP as u128 - 1
            <= CLOCK_MAX as u128;
        proof {
            if r {
                assert forall|log: Seq<Record>, data: Seq<u8>|
                    data.len() == len implies #[trigger] self.model(
                    log,
                    Flow::Continue,
                ).process_bytes(data).within_clock() by {
                    model::lemma_process_bytes_clock(self.model(log, Flow::Continue), data);
                }
            }
        }
        r
    }

    /// Writes the blocks at the start of a capture file.
    pub fn write_headers(&mut self, writer: &mut Output)
        requires
            old(self).wf(),
            old(writer).wf(),
        ensures
            final(self).wf(),
            final(writer).wf(),
            final(self).model(final(writer).log(), Flow::Continue) == old(self).model(
                old(writer).log(),
                Flow::Continue,
            ).write_headers(),
    {
        self.write_file_header(writer);
        self.write_usb_header(writer);
        self.write_info_header(writer);
    }

    /// Writes the section header.
    fn write_file_header(&mut self, writer: &mut Output)
        requires
            old(self).idle(),
            old(writer).wf(),
        ensures
            final(self).idle(),
            final(writer).wf(),
            final(self).model(final(writer).log(), Flow::Continue) == old(self).model(
                old(writer).log(),
                Flow::Continue,
            ).emit(Record::Section),
    {
        self.pcapng.write_section(writer);
    }

    /// Writes the description of the interface that has the packets.
    fn write_usb_header(&mut self, writer: &mut Output)
        requires
            old(self).idle(),
            old(writer).wf(),
        ensures
            final(self).idle(),
            final(writer).wf(),
            ({
                let m = old(self).model(old(writer).log(), Flow::Continue);
                final(self).model(final(writer).log(), Flow::Continue) == m.emit(
                    Record::Interface {
                        link_type: model::link_type(m.speed) as int,
                        name: "usb"@,
                        description: "Hardware USB interface"@,
                    },
                )
            }),
    {
        let link_type = match self.speed {
            CaptureSpeed::LowSpeed => LINKTYPE_USB_2_0_LOW_SPEED,
            CaptureSpeed::FullSpeed => LINKTYPE_USB_2_0_FULL_SPEED,
            CaptureSpeed::HighSpeed => LINKTYPE_USB_2_0_HIGH_SPEED,
            CaptureSpeed::Reset => LINKTYPE_USB_2_0,
        };
        self.pcapng.write_interface(writer, link_type, "usb", "Hardware USB interface");
    }

    /// Writes the description of the interface that has the messages.
    fn write_info_header(&mut self, writer: &mut Output)
        requires
            old(self).idle(),
            old(writer).wf(),
        ensures
            final(self).idle(),
            final(writer).wf(),
            final(self).model(final(writer).log(), Flow::Continue) == old(self).model(
                old(writer).log(),
                Flow::Continue,
            ).emit(
                (Record::Interface {
                    link_type: LINKTYPE_WIRESHARK_UPPER_PDU as int,
                    name: "info"@,
                    description: "Out of band information"@,
                }),
            ),
    {
        self.pcapng.write_interface(
            writer,
            LINKTYPE_WIRESHARK_UPPER_PDU,
            "info",
            "Out of band information",
        );
    }
}

/// The capture hardware is reset, set to a speed and started.
pub open spec fn start_acts(speed: CaptureSpeed) -> Seq<Act> {
    usb::init_acts() + seq![
        usb::set_ctrl(CaptureCtrl::ENABLE, false),
        usb::set_ctrl(CaptureCtrl::RESET, true),
        usb::drain(),
        usb::set_ctrl(CaptureCtrl::SPEED0, speed.spec_code() % 2 == 1),
        usb::set_ctrl(CaptureCtrl::SPEED1, speed.spec_code() / 2 == 1),
        usb::set_ctrl(CaptureCtrl::RESET, false),
        usb::set_ctrl(CaptureCtrl::ENABLE, true),
    ]
}

/// Starts a capture: sets the hardware up and begins the capture file. The stream that the
/// device then sends goes to `CaptureState::process`.
pub fn run(
    device: &mut UsbDevice,
    writer: &mut Output,
    speed: CaptureSpeed,
    trigger: CaptureTrigger,
    limit: i64,
    fold_empty: bool,
) -> (state: CaptureState)
    requires
        old(writer).wf(),
    ensures
        final(device)@ == old(device)@ + start_acts(speed),
        final(writer).wf(),
        state.wf(),
        state.model(final(writer).log(), Flow::Continue) == Model::started(
            speed,
            trigger,
            fold_empty,
            limit as int,
            old(writer).log(),
        ),
{
    device.ctrl_init();
    device.ctrl(CaptureCtrl::ENABLE, false);
    device.ctrl(CaptureCtrl::RESET, true);
    device.flush_data();
    device.ctrl(CaptureCtrl::SPEED0, speed.code() % 2 == 1);
    device.ctrl(CaptureCtrl::SPEED1, speed.code() / 2 == 1);
    device.ctrl(CaptureCtrl::RESET, false);
    device.ctrl(CaptureCtrl::ENABLE, true);
    assert(device@ =~= old(device)@ + start_acts(speed));

    let mut state = CaptureState::new(speed, trigger, fold_empty, limit);
    state.write_headers(writer);
    if trigger == CaptureTrigger::Disabled {
        state.capture_info(writer, 0, "Starting capture");
        state.enabled = true;
    } else {
        state.capture_info(writer, 0, "Waiting for a trigger");
    }
    state
}

} // verus!
