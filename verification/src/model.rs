//! The capture as a mathematical state machine.
//!
//! `Model` is what a capture knows, together with the records that it has produced. Each event
//! is a function from one model to the next.

use vstd::prelude::*;

use crate::capture::{CaptureSpeed, CaptureTrigger};
use crate::messages;
use crate::pcapng::Record;

verus! {

/// The pcapng link type of USB 2.0 packets at any speed.
pub const LINKTYPE_USB_2_0: u16 = 288;

/// The pcapng link type of low-speed packets.
pub const LINKTYPE_USB_2_0_LOW_SPEED: u16 = 293;

/// The pcapng link type of full-speed packets.
pub const LINKTYPE_USB_2_0_FULL_SPEED: u16 = 294;

/// The pcapng link type of high-speed packets.
pub const LINKTYPE_USB_2_0_HIGH_SPEED: u16 = 295;

/// The pcapng link type of messages: Wireshark Upper PDU.
pub const LINKTYPE_WIRESHARK_UPPER_PDU: u16 = 252;

/// A periodic message is due when nothing was recorded for this long: two seconds.
pub const UPDATE_INTERVAL: u64 = 2_000_000_000;

/// Bytes of the header of a data frame.
pub const DATA_HEADER_SIZE: usize = 7;

/// Bytes of a status frame.
pub const STATUS_HEADER_SIZE: usize = 4;

/// Most bytes of a data frame, its header included.
pub const MAX_DATA_SIZE: usize = 1280;

/// Most entries that wait for the end of a frame that may be folded.
pub const FOLD_BUF_SIZE: usize = 256;

/// Byte 0: set in a data frame, clear in a status frame.
pub const HEADER_STATUS: u8 = 0x80;

/// Byte 0: alternates from frame to frame.
pub const HEADER_TOGGLE: u8 = 0x40;

/// Byte 0: always zero.
pub const HEADER_ZERO: u8 = 0x20;

/// Byte 0: the 20-bit clock has wrapped since the last frame.
pub const HEADER_TS_OVERFLOW: u8 = 0x10;

/// Byte 3 of a data frame: the hardware buffer overflowed.
pub const HEADER_OVERFLOW: u8 = 0x08;

/// Byte 3 of a data frame: the CRC is wrong.
pub const HEADER_CRC_ERROR: u8 = 0x10;

/// Byte 3 of a data frame: the PHY reported an error.
pub const HEADER_DATA_ERROR: u8 = 0x20;

/// Byte 3 of a status frame: the bus is powered.
pub const HEADER_VBUS: u8 = 0x10;

/// Byte 3 of a status frame: the trigger input is high.
pub const HEADER_TRIGGER: u8 = 0x20;

/// Packet identifier: start of frame.
pub const PID_SOF: u8 = 0xa5;

/// Packet identifier: IN token.
pub const PID_IN: u8 = 0x69;

/// Packet identifier: NAK handshake.
pub const PID_NAK: u8 = 0x5a;

/// Folded frames after which the count is recorded, at low and full speed.
pub const FOLD_LIMIT_LS_FS: i32 = 1000;

/// Folded frames after which the count is recorded, at high speed.
pub const FOLD_LIMIT_HS: i32 = 8000;

/// The shortest keep-alive pulse, in nanoseconds.
pub const MIN_KEEPALIVE_DURATION: u64 = 1_000;

/// The longest keep-alive pulse, in nanoseconds.
pub const MAX_KEEPALIVE_DURATION: u64 = 2_000;

/// No line state.
pub const LS_INVALID: i32 = -1;

/// Line state: both lines at zero.
pub const LS_SE0: i32 = 0;

/// Line state: D- at the highest level, D+ at zero.
pub const LS_J3: i32 = 12;

/// What one wrap of the hardware clock adds to the time.
pub const CLOCK_WRAP: u64 = 0x10_0000;

/// The highest time, in ticks, whose nanoseconds are computed without overflow.
pub const CLOCK_MAX: u64 = 0x028f_5c28_f5c2_8f5c;

/// What the bytes that come next belong to.
pub enum Stage {
    /// The header of a frame.
    Header,
    /// The packet that a data frame carries.
    Payload {
        size: int,
        overflow: bool,
        crc_error: bool,
        data_error: bool,
        duration: int,
    },
}

/// An entry of a frame that may turn out to be empty.
pub enum Fold {
    Packet { ts: int, data: Seq<u8> },
    Keepalive { ts: int, delta: int },
}

/// The state of a capture.
pub struct Model {
    pub speed: CaptureSpeed,
    pub trigger: CaptureTrigger,
    pub fold_empty: bool,
    /// Packets until the capture stops; never, when negative.
    pub limit: int,
    pub stage: Stage,
    /// The bytes received of the current header or payload.
    pub frame: Seq<u8>,
    /// The toggle bit that the next header must have.
    pub toggle: int,
    pub ls: int,
    pub vbus: int,
    pub trigger_in: int,
    pub detected_speed: int,
    pub enabled: bool,
    /// The ticks counted by wraps of the hardware clock.
    pub ts_int: int,
    /// The time of the current frame, in nanoseconds.
    pub ts: int,
    /// The time of the last record.
    pub last_ts: int,
    pub fold: Seq<Fold>,
    pub fold_count: int,
    /// A line state that is not recorded yet.
    pub saved_ls: int,
    /// When that line state began.
    pub saved_ts: int,
    /// The records so far.
    pub log: Seq<Record>,
    /// The capture is over.
    pub stopped: bool,
}

/// Bytes of the header that begins with `first`.
pub open spec fn header_size(first: u8) -> int {
    if first & HEADER_STATUS == 0 {
        STATUS_HEADER_SIZE as int
    } else {
        DATA_HEADER_SIZE as int
    }
}

/// One if any bit of `mask` is set in `byte`, else zero.
pub open spec fn flag(byte: u8, mask: u8) -> int {
    if byte & mask != 0 {
        1
    } else {
        0
    }
}

/// The 20-bit clock in the first three bytes of a header.
pub open spec fn clock(header: Seq<u8>) -> int {
    header[0] % 16 * 65536 + header[1] * 256 + header[2]
}

/// The size of a data frame, header included.
pub open spec fn data_size(header: Seq<u8>) -> int {
    header[3] % 8 * 256 + header[4]
}

/// Nanoseconds of a number of ticks at 60 MHz.
pub open spec fn nanoseconds(ticks: int) -> int {
    ticks * 100 / 6
}

/// Folded frames after which their count is recorded.
pub open spec fn fold_limit(speed: CaptureSpeed) -> int {
    if speed == CaptureSpeed::HighSpeed {
        FOLD_LIMIT_HS as int
    } else {
        FOLD_LIMIT_LS_FS as int
    }
}

/// The time that passed from `earlier` to `later`; zero if it went backwards.
pub open spec fn elapsed(later: int, earlier: int) -> int {
    if later < earlier {
        0
    } else {
        later - earlier
    }
}

/// Whether packets are recorded, after the trigger input has changed from `before` to `now`.
pub open spec fn triggered(trigger: CaptureTrigger, enabled: bool, before: int, now: int) -> bool {
    match trigger {
        CaptureTrigger::Disabled => true,
        CaptureTrigger::Low => now == 0,
        CaptureTrigger::High => now == 1,
        CaptureTrigger::Falling => enabled || (now == 0 && before == 1),
        CaptureTrigger::Rising => enabled || (now == 1 && before == 0),
    }
}

/// The pcapng link type of packets at a speed.
pub open spec fn link_type(speed: CaptureSpeed) -> u16 {
    match speed {
        CaptureSpeed::LowSpeed => LINKTYPE_USB_2_0_LOW_SPEED,
        CaptureSpeed::FullSpeed => LINKTYPE_USB_2_0_FULL_SPEED,
        CaptureSpeed::HighSpeed => LINKTYPE_USB_2_0_HIGH_SPEED,
        CaptureSpeed::Reset => LINKTYPE_USB_2_0,
    }
}

impl Model {
    /// A capture that has received nothing.
    pub open spec fn initial(
        speed: CaptureSpeed,
        trigger: CaptureTrigger,
        fold_empty: bool,
        limit: int,
        log: Seq<Record>,
    ) -> Model {
        Model {
            speed,
            trigger,
            fold_empty,
            limit,
            stage: Stage::Header,
            frame: Seq::empty(),
            toggle: 0,
            ls: -1,
            vbus: -1,
            trigger_in: -1,
            detected_speed: -1,
            enabled: false,
            ts_int: 0,
            ts: 0,
            last_ts: 0,
            fold: Seq::empty(),
            fold_count: 0,
            saved_ls: LS_INVALID as int,
            saved_ts: 0,
            log,
            stopped: false,
        }
    }

    /// What holds of a capture at all times.
    pub open spec fn sound(self) -> bool {
        &&& 0 <= self.toggle <= 1
        &&& 0 <= self.ts_int
        &&& self.ts_int % CLOCK_WRAP as int == 0
        &&& 0 <= self.fold_count < fold_limit(self.speed)
        &&& self.fold.len() <= FOLD_BUF_SIZE
        &&& LS_INVALID <= self.saved_ls <= 15
    }

    /// What holds of a capture between two bytes: the current header or payload is incomplete.
    pub open spec fn wf(self) -> bool {
        &&& self.sound()
        &&& match self.stage {
            Stage::Header => self.frame.len() == 0 || self.frame.len() < self.expected(),
            Stage::Payload { size, .. } => self.frame.len() < size <= MAX_DATA_SIZE
                - DATA_HEADER_SIZE,
        }
    }

    /// The nanoseconds of any time between the last wrap of the clock and the next are computed
    /// without overflow.
    pub open spec fn within_clock(self) -> bool {
        self.ts_int + CLOCK_WRAP - 1 <= CLOCK_MAX
    }

    /// The clock stays so for `wraps` more wraps.
    pub open spec fn has_clock_room(self, wraps: int) -> bool {
        self.ts_int + (wraps + 1) * CLOCK_WRAP - 1 <= CLOCK_MAX
    }

    /// A record is appended.
    pub open spec fn emit(self, record: Record) -> Model {
        Model { log: self.log.push(record), ..self }
    }

    /// The start of every capture file: the section header, the interface of the packets and
    /// that of the messages.
    pub open spec fn write_headers(self) -> Model {
        self.emit(Record::Section).emit(
            Record::Interface {
                link_type: link_type(self.speed) as int,
                name: "usb"@,
                description: "Hardware USB interface"@,
            },
        ).emit(
            Record::Interface {
                link_type: LINKTYPE_WIRESHARK_UPPER_PDU as int,
                name: "info"@,
                description: "Out of band information"@,
            },
        )
    }

    /// A new capture file, up to the first byte from the hardware.
    pub open spec fn started(
        speed: CaptureSpeed,
        trigger: CaptureTrigger,
        fold_empty: bool,
        limit: int,
        log: Seq<Record>,
    ) -> Model {
        let m = Model::initial(speed, trigger, fold_empty, limit, log).write_headers();
        if trigger == CaptureTrigger::Disabled {
            Model { enabled: true, ..m.capture_info(0, "Starting capture"@) }
        } else {
            m.capture_info(0, "Waiting for a trigger"@)
        }
    }

    /// A packet is recorded.
    pub open spec fn write_packet(self, ts: int, data: Seq<u8>) -> Model {
        Model { last_ts: ts, ..self.emit(Record::Packet { ts, data }) }
    }

    /// A message is recorded.
    pub open spec fn write_str(self, ts: int, text: Seq<char>) -> Model {
        Model { last_ts: ts, ..self.emit(Record::Text { ts, text }) }
    }

    /// A keep-alive pulse is recorded.
    pub open spec fn write_keepalive(self, ts: int) -> Model {
        self.write_str(ts, "Keep-alive"@)
    }

    /// The pending line state is recorded.
    pub open spec fn line_state_event(self) -> Model {
        if self.saved_ls == LS_INVALID {
            self
        } else {
            Model { saved_ls: LS_INVALID as int, ..self }.write_str(
                self.saved_ts,
                messages::line_state(
                    self.saved_ls,
                    self.speed == CaptureSpeed::LowSpeed,
                    elapsed(self.ts, self.saved_ts),
                ),
            )
        }
    }

    /// An entry that waited is recorded.
    pub open spec fn write_fold(self, entry: Fold) -> Model {
        match entry {
            Fold::Packet { ts, data } => self.write_packet(ts, data),
            Fold::Keepalive { ts, delta } => self.write_keepalive(ts),
        }
    }

    /// Entries that waited are recorded, in order.
    pub open spec fn write_folds(self, entries: Seq<Fold>) -> Model
        decreases entries.len(),
    {
        if entries.len() == 0 {
            self
        } else {
            self.write_folds(entries.drop_last()).write_fold(entries.last())
        }
    }

    /// The number of folded frames is recorded, then the entries that wait.
    #[verifier::opaque]
    pub open spec fn stop_folding(self) -> Model {
        let unfolded = Model { fold: Seq::empty(), fold_count: 0, ..self };
        let counted = if self.fold_count > 0 {
            unfolded.write_str(self.ts, messages::folded(self.fold_count))
        } else {
            unfolded
        };
        counted.write_folds(self.fold)
    }

    /// A message is recorded, after everything that waits, and flushed.
    #[verifier::opaque]
    pub open spec fn capture_info(self, ts: int, text: Seq<char>) -> Model {
        self.line_state_event().stop_folding().write_str(ts, text).emit(Record::Flush)
    }

    /// Nothing was recorded for a while.
    pub open spec fn timeout_event(self) -> Model {
        if self.enabled {
            self.capture_info(self.ts, "Periodic update"@)
        } else {
            self
        }
    }

    /// One packet less until the limit; at the limit the capture stops.
    pub open spec fn check_capture_limit(self) -> Model {
        if self.limit < 0 {
            self
        } else if self.limit == 1 {
            Model {
                stopped: true,
                ..Model { limit: 0, ..self }.capture_info(self.ts, "Capture limit reached"@)
            }
        } else {
            Model { limit: self.limit - 1, ..self }
        }
    }

    /// One more frame was empty: its entries are dropped and it is counted.
    pub open spec fn count_folded(self, limit: int) -> Model {
        let counted = Model { fold_count: self.fold_count + 1, fold: Seq::empty(), ..self };
        if counted.fold_count == limit {
            counted.stop_folding()
        } else {
            counted
        }
    }

    /// An entry waits for the end of its frame.
    pub open spec fn fold_entry(self, entry: Fold) -> Model {
        Model { fold: self.fold.push(entry), ..self }
    }

    /// A low-speed keep-alive pulse.
    pub open spec fn keepalive_event(self, ts: int, delta: int) -> Model {
        let entry = Fold::Keepalive { ts, delta };
        if !self.enabled {
            self
        } else if !self.fold_empty {
            self.write_keepalive(ts).check_capture_limit()
        } else if self.fold.len() > 0 {
            self.count_folded(FOLD_LIMIT_LS_FS as int).fold_entry(entry).check_capture_limit()
        } else {
            self.fold_entry(entry).check_capture_limit()
        }
    }

    /// The trigger input is in state `trigger`: packets are recorded from now on, or no longer.
    pub open spec fn trigger_change(self, trigger: int) -> Model {
        if self.trigger_in == trigger {
            self
        } else {
            let enabled = triggered(self.trigger, self.enabled, self.trigger_in, trigger);
            let m = Model { enabled, trigger_in: trigger, ..self }.capture_info(
                self.ts,
                messages::trigger_input(trigger),
            );
            if enabled && !self.enabled {
                m.capture_info(self.ts, "Starting capture"@)
            } else if !enabled && self.enabled {
                m.capture_info(self.ts, "Waiting for a trigger"@)
            } else {
                m
            }
        }
    }

    /// The bus voltage is in state `vbus`.
    pub open spec fn vbus_change(self, vbus: int) -> Model {
        if self.vbus == vbus {
            self
        } else {
            Model { vbus, ..self }.capture_info(self.ts, messages::vbus(vbus != 0))
        }
    }

    /// The hardware detects speed `speed`; that is recorded only while packets are.
    pub open spec fn speed_change(self, speed: int) -> Model {
        if self.detected_speed == speed {
            self
        } else if self.enabled {
            Model { detected_speed: speed, ..self }.capture_info(
                self.ts,
                messages::detected_speed(speed),
            )
        } else {
            Model { detected_speed: speed, ..self }
        }
    }

    /// Whether the change to line state `ls` ends a low-speed keep-alive pulse.
    pub open spec fn ends_keepalive(self, ls: int) -> bool {
        &&& self.speed == CaptureSpeed::LowSpeed
        &&& self.saved_ls == LS_SE0
        &&& ls == LS_J3
        &&& MIN_KEEPALIVE_DURATION <= elapsed(self.ts, self.saved_ts) <= MAX_KEEPALIVE_DURATION
    }

    /// The lines are in state `ls`: the state before is recorded, now that its duration is known.
    pub open spec fn line_change(self, ls: int) -> Model {
        if self.ls == ls {
            self
        } else if self.ends_keepalive(ls) {
            let m = Model { saved_ls: LS_INVALID as int, ..self }.keepalive_event(
                self.saved_ts,
                elapsed(self.ts, self.saved_ts),
            );
            if m.stopped {
                m
            } else {
                Model { ls, ..m }
            }
        } else {
            Model { saved_ls: ls, saved_ts: self.ts, ls, ..self.line_state_event() }
        }
    }

    /// A status frame: each thing that changed is recorded.
    #[verifier::opaque]
    pub open spec fn status_event(self, ls: int, vbus: int, trigger: int, speed: int) -> Model {
        self.trigger_change(trigger).vbus_change(vbus).speed_change(speed).line_change(ls)
    }

    /// The packet in `self.frame` is recorded, or waits for the end of a frame that may be folded.
    pub open spec fn record_packet(self, data_error: bool) -> Model {
        let pid = self.frame[0];
        let starts_frame = pid == PID_SOF && self.speed != CaptureSpeed::LowSpeed;
        let entry = Fold::Packet { ts: self.ts, data: self.frame };
        if data_error || !self.fold_empty {
            self.write_packet(self.ts, self.frame)
        } else if self.fold.len() > 0 {
            if pid == PID_IN || pid == PID_NAK {
                self.fold_entry(entry)
            } else if starts_frame {
                self.count_folded(fold_limit(self.speed)).fold_entry(entry)
            } else {
                self.stop_folding().write_packet(self.ts, self.frame)
            }
        } else if starts_frame {
            self.fold_entry(entry)
        } else {
            self.write_packet(self.ts, self.frame)
        }
    }

    /// A whole data frame: the packet in `self.frame`.
    #[verifier::opaque]
    pub open spec fn data_event(self, overflow: bool, crc_error: bool, phy_error: bool) -> Model {
        let data_error = crc_error || phy_error;
        if !self.enabled {
            self
        } else {
            let m = self.line_state_event();
            let m = if overflow || data_error || m.fold.len() == FOLD_BUF_SIZE {
                m.stop_folding()
            } else {
                m
            };
            let m = if overflow {
                m.capture_info(m.ts, "Hardware buffer overflow"@)
            } else {
                m
            };
            let m = if phy_error {
                m.capture_info(m.ts, "USB PHY error"@)
            } else {
                m
            };
            m.record_packet(data_error).check_capture_limit()
        }
    }

    /// The stream makes no sense any more: the capture stops.
    pub open spec fn desync_error(self) -> Model {
        Model {
            stopped: true,
            ..self.capture_info(
                self.ts,
                "Error: protocol desynchronization, stopping the capture"@,
            ).capture_info(self.ts, messages::packet_header(self.frame))
        }
    }

    /// A header with the wrong toggle bit, or with a zero bit that is not zero, ends the capture.
    #[verifier::opaque]
    pub open spec fn check_header(self, toggle: int, zero: int) -> Model {
        if toggle == self.toggle && zero == 0 {
            self
        } else {
            let m = if toggle != self.toggle {
                self.capture_info(self.ts, messages::wrong_toggle(toggle, self.toggle))
            } else {
                self
            };
            let m = if zero != 0 {
                m.capture_info(m.ts, "Error: zero bit in the header is not zero"@)
            } else {
                m
            };
            m.desync_error()
        }
    }

    /// A data frame of an impossible size ends the capture.
    #[verifier::opaque]
    pub open spec fn check_data_size(self, size: int) -> Model {
        if DATA_HEADER_SIZE <= size <= MAX_DATA_SIZE {
            self
        } else {
            self.capture_info(self.ts, messages::invalid_size(size)).desync_error()
        }
    }

    /// The time of the header in `self.frame`.
    #[verifier::opaque]
    pub open spec fn advance_clock(self) -> Model {
        let ts_int = if self.frame[0] & HEADER_TS_OVERFLOW != 0 {
            self.ts_int + CLOCK_WRAP
        } else {
            self.ts_int
        };
        let m = Model {
            ts_int,
            ts: nanoseconds(ts_int + clock(self.frame)),
            toggle: 1 - flag(self.frame[0], HEADER_TOGGLE),
            ..self
        };
        if elapsed(m.ts, m.last_ts) >= UPDATE_INTERVAL {
            m.timeout_event()
        } else {
            m
        }
    }

    /// A whole header in `self.frame`, of the right toggle: a status frame, or the start of a
    /// data frame.
    #[verifier::opaque]
    pub open spec fn header_event(self) -> Model {
        let b3 = self.frame[3];
        if self.frame[0] & HEADER_STATUS == 0 {
            let m = self.status_event(
                (b3 % 16) as int,
                flag(b3, HEADER_VBUS),
                flag(b3, HEADER_TRIGGER),
                (b3 / 64) as int,
            );
            if m.stopped {
                m
            } else {
                Model { frame: Seq::empty(), ..m }
            }
        } else {
            let size = data_size(self.frame);
            let m = self.check_data_size(size);
            if m.stopped {
                m
            } else {
                Model {
                    stage: if size == DATA_HEADER_SIZE {
                        Stage::Header
                    } else {
                        Stage::Payload {
                            size: size - DATA_HEADER_SIZE,
                            overflow: b3 & HEADER_OVERFLOW != 0,
                            crc_error: b3 & HEADER_CRC_ERROR != 0,
                            data_error: b3 & HEADER_DATA_ERROR != 0,
                            duration: self.frame[5] * 256 + self.frame[6],
                        }
                    },
                    frame: Seq::empty(),
                    ..m
                }
            }
        }
    }

    /// How many bytes the current header or payload has.
    pub open spec fn expected(self) -> int {
        match self.stage {
            Stage::Header => header_size(self.frame[0]),
            Stage::Payload { size, .. } => size,
        }
    }

    /// The bytes of the current header or payload are complete.
    pub open spec fn frame_event(self) -> Model {
        match self.stage {
            Stage::Header => {
                let m = self.check_header(
                    flag(self.frame[0], HEADER_TOGGLE),
                    flag(self.frame[0], HEADER_ZERO),
                );
                if m.stopped {
                    m
                } else {
                    m.advance_clock().header_event()
                }
            },
            Stage::Payload { overflow, crc_error, data_error, .. } => {
                let m = Model { stage: Stage::Header, ..self }.data_event(
                    overflow,
                    crc_error,
                    data_error,
                );
                if m.stopped {
                    m
                } else {
                    Model { frame: Seq::empty(), ..m }
                }
            },
        }
    }

    /// One more byte of the stream.
    pub open spec fn process_byte(self, byte: u8) -> Model {
        let m = Model { frame: self.frame.push(byte), ..self };
        if m.frame.len() < m.expected() {
            m
        } else {
            m.frame_event()
        }
    }

    /// More bytes of the stream, up to the one at which the capture stops.
    pub open spec fn process_bytes(self, data: Seq<u8>) -> Model
        decreases data.len(),
    {
        if data.len() == 0 {
            self
        } else {
            let m = self.process_bytes(data.drop_last());
            if m.stopped {
                m
            } else {
                m.process_byte(data.last())
            }
        }
    }

    /// A chunk of the stream; unless it stops the capture, its records are flushed.
    pub open spec fn process(self, data: Seq<u8>) -> Model {
        let m = self.process_bytes(data);
        if m.stopped {
            m
        } else {
            m.emit(Record::Flush)
        }
    }
}

/// Writing entries out changes the records and nothing else.
pub broadcast proof fn lemma_write_folds(m: Model, entries: Seq<Fold>)
    ensures
        (#[trigger] m.write_folds(entries)) == (Model {
            log: m.write_folds(entries).log,
            last_ts: m.write_folds(entries).last_ts,
            ..m
        }),
    decreases entries.len(),
{
    if entries.len() > 0 {
        lemma_write_folds(m, entries.drop_last());
    }
}

/// After folding has stopped, no entry waits and no frame is counted.
pub broadcast proof fn lemma_stop_folding(m: Model)
    ensures
        (#[trigger] m.stop_folding()) == (Model {
            log: m.stop_folding().log,
            last_ts: m.stop_folding().last_ts,
            fold: Seq::empty(),
            fold_count: 0,
            ..m
        }),
{
    broadcast use lemma_write_folds;

    reveal(Model::stop_folding);

}

/// After a message, nothing that it had to come after waits any more.
pub broadcast proof fn lemma_capture_info(m: Model, ts: int, text: Seq<char>)
    ensures
        (#[trigger] m.capture_info(ts, text)) == (Model {
            log: m.capture_info(ts, text).log,
            last_ts: ts,
            fold: Seq::empty(),
            fold_count: 0,
            saved_ls: LS_INVALID as int,
            ..m
        }),
{
    broadcast use lemma_stop_folding;

    reveal(Model::capture_info);

}

/// A model that differs from another at most in what records and events change: not in the
/// configuration, the clock and the place in the stream.
pub open spec fn same_place(a: Model, b: Model) -> bool {
    &&& a.speed == b.speed
    &&& a.trigger == b.trigger
    &&& a.fold_empty == b.fold_empty
    &&& a.stage == b.stage
    &&& a.frame == b.frame
    &&& a.toggle == b.toggle
    &&& a.ts_int == b.ts_int
    &&& a.ts == b.ts
}

/// A status frame does not move the place in the stream.
pub broadcast proof fn lemma_status_event(m: Model, ls: int, vbus: int, trigger: int, speed: int)
    ensures
        same_place(#[trigger] m.status_event(ls, vbus, trigger, speed), m),
{
    broadcast use {lemma_stop_folding, lemma_capture_info};

    reveal(Model::status_event);
}

/// A packet does not move the place in the stream.
pub broadcast proof fn lemma_data_event(m: Model, overflow: bool, crc_error: bool, phy_error: bool)
    ensures
        same_place(#[trigger] m.data_event(overflow, crc_error, phy_error), m),
{
    broadcast use {lemma_stop_folding, lemma_capture_info};

    reveal(Model::data_event);
}

/// A header of the right form changes nothing; any other ends the capture.
pub broadcast proof fn lemma_check_header(m: Model, toggle: int, zero: int)
    ensures
        ({
            let r = #[trigger] m.check_header(toggle, zero);
            &&& same_place(r, m)
            &&& toggle == m.toggle && zero == 0 ==> r == m
            &&& toggle != m.toggle || zero != 0 ==> r.stopped
        }),
{
    broadcast use {lemma_stop_folding, lemma_capture_info};

    reveal(Model::check_header);
}

/// A possible size changes nothing; any other ends the capture.
pub broadcast proof fn lemma_check_data_size(m: Model, size: int)
    ensures
        ({
            let r = #[trigger] m.check_data_size(size);
            &&& same_place(r, m)
            &&& DATA_HEADER_SIZE <= size <= MAX_DATA_SIZE ==> r == m
            &&& !(DATA_HEADER_SIZE <= size <= MAX_DATA_SIZE) ==> r.stopped
        }),
{
    broadcast use {lemma_stop_folding, lemma_capture_info};

    reveal(Model::check_data_size);
}

/// The clock moves by at most one wrap.
pub broadcast proof fn lemma_advance_clock(m: Model)
    ensures
        ({
            let r = #[trigger] m.advance_clock();
            &&& r.stage == m.stage
            &&& r.frame == m.frame
            &&& m.ts_int <= r.ts_int <= m.ts_int + CLOCK_WRAP
            &&& r.stopped == m.stopped
        }),
{
    broadcast use {lemma_stop_folding, lemma_capture_info};

    reveal(Model::advance_clock);
}

/// After a header, unless the capture is over, the next frame or a payload begins.
pub broadcast proof fn lemma_header_event(m: Model)
    requires
        m.stage is Header,
    ensures
        ({
            let r = #[trigger] m.header_event();
            &&& r.ts_int == m.ts_int
            &&& !r.stopped ==> r.frame == Seq::<u8>::empty()
            &&& !r.stopped ==> (r.stage matches Stage::Payload { size, .. } ==> 0 < size
                <= MAX_DATA_SIZE - DATA_HEADER_SIZE)
        }),
{
    broadcast use {lemma_status_event, lemma_check_data_size};

    reveal(Model::header_event);
}

/// A byte moves the clock by at most one wrap, and never back.
pub proof fn lemma_process_byte_clock(m: Model, byte: u8)
    ensures
        m.ts_int <= m.process_byte(byte).ts_int <= m.ts_int + CLOCK_WRAP,
{
    broadcast use {
        lemma_status_event,
        lemma_data_event,
        lemma_check_header,
        lemma_advance_clock,
        lemma_header_event,
    };

}

/// Bytes move the clock by at most one wrap each, and never back.
pub proof fn lemma_process_bytes_clock(m: Model, data: Seq<u8>)
    ensures
        m.ts_int <= m.process_bytes(data).ts_int <= m.ts_int + data.len() * CLOCK_WRAP,
    decreases data.len(),
{
    if data.len() > 0 {
        lemma_process_bytes_clock(m, data.drop_last());
        lemma_process_byte_clock(m.process_bytes(data.drop_last()), data.last());
        assert((data.len() - 1) * CLOCK_WRAP + CLOCK_WRAP == data.len() * CLOCK_WRAP)
            by (nonlinear_arith);
    }
}

/// The clock is never ahead of where it is after more bytes.
pub proof fn lemma_clock_grows(m: Model, data: Seq<u8>, n: int)
    requires
        0 <= n <= data.len(),
    ensures
        m.process_bytes(data.take(n)).ts_int <= m.process_bytes(data).ts_int,
    decreases data.len(),
{
    if n == data.len() {
        assert(data.take(n) =~= data);
    } else {
        assert(data.drop_last().take(n) =~= data.take(n));
        lemma_clock_grows(m, data.drop_last(), n);
        lemma_process_byte_clock(m.process_bytes(data.drop_last()), data.last());
    }
}

/// Once the capture is over, the rest of the stream is ignored.
pub proof fn lemma_process_bytes_stopped(m: Model, data: Seq<u8>, n: int)
    requires
        0 <= n <= data.len(),
        m.process_bytes(data.take(n)).stopped,
    ensures
        m.process_bytes(data) == m.process_bytes(data.take(n)),
    decreases data.len(),
{
    if n == data.len() {
        assert(data.take(n) =~= data);
    } else {
        assert(data.drop_last().take(n) =~= data.take(n));
        lemma_process_bytes_stopped(m, data.drop_last(), n);
    }
}

} // verus!
