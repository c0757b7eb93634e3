//! The requests that the capture hardware understands.
//!
//! `UsbDevice` collects what is to be done with the device. Whoever holds the real device takes
//! the actions from it, performs them in order, and hands back what was read.

use vstd::prelude::*;

use crate::capture::CaptureCtrl;

verus! {

/// The address of the register that holds the microcontroller in reset.
pub const CPUCS_ADDR: u16 = 0xe600;

/// How long a control transfer may take, in milliseconds.
pub const CONTROL_TIMEOUT_MS: u64 = 250;

/// Vendor request: memory of the microcontroller.
pub const CMD_FX2LP_REQUEST: u8 = 0xa0;

/// Vendor request: read from the I2C bus.
pub const CMD_I2C_READ: u8 = 0xb0;

/// Vendor request: write to the I2C bus.
pub const CMD_I2C_WRITE: u8 = 0xb1;

/// Vendor request: JTAG on or off.
pub const CMD_JTAG_ENABLE: u8 = 0xc0;

/// Vendor request: JTAG clocks.
pub const CMD_JTAG_REQUEST: u8 = 0xc1;

/// Vendor request: what the last JTAG clocks read.
pub const CMD_JTAG_RESPONSE: u8 = 0xc2;

/// Vendor request: control bit of the capture hardware.
pub const CMD_CTRL: u8 = 0xd0;

/// Most clocks in one JTAG request.
pub const MAX_COUNT_IN_JTAG_REQUEST: usize = 255;

/// The endpoint that delivers the capture stream.
pub const DATA_ENDPOINT: u8 = 0x82;

/// The packet size of that endpoint.
pub const DATA_ENDPOINT_SIZE: usize = 512;

/// Bytes of one bulk transfer: a multiple of the packet size.
pub const TRANSFER_SIZE: usize = 1_024_000;

/// Bulk transfers that are under way at any time.
pub const TRANSFER_COUNT: usize = 16;

/// How long a bulk transfer waits for data, in milliseconds.
pub const CAPTURE_TIMEOUT_MS: u64 = 250;

/// The packet size of the control endpoint.
pub const USB_EP0_SIZE: usize = 64;

/// Most bulk transfers that are thrown away when the data endpoint is flushed.
pub const FLUSH_ATTEMPTS: usize = 100;

/// How long the flush waits for each of them, in milliseconds.
pub const FLUSH_TIMEOUT_MS: u64 = 20;

/// Something to be done with the device.
pub enum Action {
    /// A vendor control transfer to the device.
    ControlOut { request: u8, value: u16, index: u16, data: Vec<u8> },
    /// A vendor control transfer from the device.
    ControlIn { request: u8, value: u16, index: u16, length: u16 },
    /// Bulk transfers whose data is thrown away, until one fails or times out.
    Drain { attempts: usize, size: usize, timeout_ms: u64 },
    /// A pause.
    Sleep { millis: u64 },
    /// A message to the user about the progress.
    Print { text: &'static str },
}

/// An action in mathematical terms.
pub enum Act {
    ControlOut { request: u8, value: u16, index: u16, data: Seq<u8> },
    ControlIn { request: u8, value: u16, index: u16, length: u16 },
    Drain { attempts: usize, size: usize, timeout_ms: u64 },
    Sleep { millis: u64 },
    Print { text: Seq<char> },
}

impl View for Action {
    type V = Act;

    open spec fn view(&self) -> Act {
        match self {
            Action::ControlOut { request, value, index, data } => Act::ControlOut {
                request: *request,
                value: *value,
                index: *index,
                data: data@,
            },
            Action::ControlIn { request, value, index, length } => Act::ControlIn {
                request: *request,
                value: *value,
                index: *index,
                length: *length,
            },
            Action::Drain { attempts, size, timeout_ms } => Act::Drain {
                attempts: *attempts,
                size: *size,
                timeout_ms: *timeout_ms,
            },
            Action::Sleep { millis } => Act::Sleep { millis: *millis },
            Action::Print { text } => Act::Print { text: text@ },
        }
    }
}

/// The actions in mathematical terms.
pub open spec fn acts(actions: Seq<Action>) -> Seq<Act> {
    actions.map_values(|a: Action| a@)
}

/// A request with data for the device.
pub open spec fn control_out(request: u8, value: u16, data: Seq<u8>) -> Act {
    Act::ControlOut { request, value, index: 0, data }
}

/// A request for data of the device.
pub open spec fn control_in(request: u8, value: u16, length: u16) -> Act {
    Act::ControlIn { request, value, index: 0, length }
}

/// Sets a control bit of the capture hardware: the index is below bit 4, the value in it.
pub open spec fn set_ctrl(index: u8, value: bool) -> Act {
    control_out(
        CMD_CTRL,
        index as u16 | (if value {
            16u16
        } else {
            0u16
        }),
        Seq::empty(),
    )
}

/// The data endpoint is emptied.
pub open spec fn drain() -> Act {
    Act::Drain {
        attempts: FLUSH_ATTEMPTS,
        size: DATA_ENDPOINT_SIZE,
        timeout_ms: FLUSH_TIMEOUT_MS,
    }
}

/// The capture hardware is reset, off, out of the test mode, and at speed zero.
pub open spec fn init_acts() -> Seq<Act> {
    seq![
        set_ctrl(CaptureCtrl::RESET, true),
        set_ctrl(CaptureCtrl::ENABLE, false),
        set_ctrl(CaptureCtrl::TEST, false),
        set_ctrl(CaptureCtrl::SPEED0, true),
        set_ctrl(CaptureCtrl::SPEED0, false),
        set_ctrl(CaptureCtrl::SPEED1, true),
        set_ctrl(CaptureCtrl::SPEED1, false),
    ]
}

/// The hardware sends the test pattern from a fresh start.
pub open spec fn speed_test_acts() -> Seq<Act> {
    init_acts() + seq![
        set_ctrl(CaptureCtrl::RESET, true),
        set_ctrl(CaptureCtrl::TEST, true),
        drain(),
        set_ctrl(CaptureCtrl::RESET, false),
    ]
}

/// Element `i` of `s`, or zero past its end.
pub open spec fn byte_at(s: Seq<u8>, i: int) -> u8 {
    if 0 <= i < s.len() {
        s[i]
    } else {
        0
    }
}

/// Four clocks in one byte, two bits each, the first in the low bits.
pub open spec fn pack4(a: u8, b: u8, c: u8, d: u8) -> u8 {
    a | (b << 2) | (c << 4) | (d << 6)
}

/// Clocks as a JTAG request carries them: four to a byte.
pub open spec fn pack_clocks(clocks: Seq<u8>) -> Seq<u8> {
    Seq::new(
        (clocks.len() + 3) / 4,
        |k: int|
            pack4(
                byte_at(clocks, 4 * k),
                byte_at(clocks, 4 * k + 1),
                byte_at(clocks, 4 * k + 2),
                byte_at(clocks, 4 * k + 3),
            ),
    )
}

/// Clock `i` of a JTAG request.
pub open spec fn packed_clock(packed: Seq<u8>, i: int) -> u8 {
    let b = packed[i / 4];
    if i % 4 == 0 {
        b & 3
    } else if i % 4 == 1 {
        (b >> 2) & 3
    } else if i % 4 == 2 {
        (b >> 4) & 3
    } else {
        (b >> 6) & 3
    }
}

/// A JTAG request.
pub open spec fn jtag_out(clocks: Seq<u8>) -> Act {
    control_out(CMD_JTAG_REQUEST, clocks.len() as u16, pack_clocks(clocks))
}

/// Bytes of the reply for a number of samples: four samples to a byte.
pub open spec fn reply_size(count: int) -> int {
    (count + 3) / 4
}

/// A request for what the last clocks read.
pub open spec fn jtag_in(count: int) -> Act {
    control_in(CMD_JTAG_RESPONSE, 0, reply_size(count) as u16)
}

/// The samples of a reply, which has four in the low half of each byte: eight to a byte. What a
/// short reply lacks counts as zero.
pub open spec fn unpack_samples(reply: Seq<u8>, count: int) -> Seq<u8> {
    Seq::new(
        ((count + 7) / 8) as nat,
        |k: int| (byte_at(reply, 2 * k) & 0x0f) | ((byte_at(reply, 2 * k + 1) & 0x0f) << 4),
    )
}

/// The bytes of a reply, and zeros for those that it lacks.
pub open spec fn received(reply: Seq<u8>, len: int) -> Seq<u8> {
    Seq::new(len as nat, |i: int| byte_at(reply, i))
}

/// Whether a reply, with zeros for the bytes that it lacks, is `expected`.
pub(crate) fn reply_is(reply: &[u8], expected: &[u8]) -> (r: bool)
    requires
        reply@.len() <= expected@.len(),
    ensures
        r == (received(reply@, expected@.len() as int) == expected@),
{
    let ghost full = received(reply@, expected@.len() as int);
    let mut i: usize = 0;
    while i < expected.len()
        invariant
            i <= expected@.len(),
            full == received(reply@, expected@.len() as int),
            forall|k: int| 0 <= k < i ==> full[k] == expected@[k],
        decreases expected@.len() - i,
    {
        let b = if i < reply.len() {
            reply[i]
        } else {
            0
        };
        if b != expected[i] {
            assert(full[i as int] != expected@[i as int]);
            return false;
        }
        i += 1;
    }
    assert(full =~= expected@);
    true
}

/// Whether two vectors hold the same bytes.
pub(crate) fn same_bytes(a: &Vec<u8>, b: &Vec<u8>) -> (r: bool)
    ensures
        r == (a@ == b@),
{
    if a.len() != b.len() {
        return false;
    }
    let mut i: usize = 0;
    while i < a.len()
        invariant
            a@.len() == b@.len(),
            i <= a@.len(),
            forall|k: int| 0 <= k < i ==> a@[k] == b@[k],
        decreases a@.len() - i,
    {
        if a[i] != b[i] {
            return false;
        }
        i += 1;
    }
    assert(a@ =~= b@);
    true
}

/// The vendor and the product of a connected device.
#[derive(Clone, Copy, PartialEq, Eq, Structural, Debug)]
pub struct DeviceId {
    pub vid: u16,
    pub pid: u16,
}

/// How a bulk transfer ended.
#[derive(Clone, Copy, PartialEq, Eq, Structural, Debug)]
pub enum TransferStatus {
    Completed,
    /// It timed out; what arrived until then counts.
    Cancelled,
    Failed,
}

/// What to do with a bulk transfer that ended.
#[derive(Clone, Copy, PartialEq, Eq, Structural, Debug)]
pub enum TransferStep {
    /// Hand its data on, then start another transfer in its place.
    Deliver,
    /// Start another transfer in its place.
    Resubmit,
    /// Give up.
    Fail,
}

/// Whether a session with the device goes on.
#[derive(Clone, Copy, PartialEq, Eq, Structural, Debug)]
pub enum SessionStep {
    /// Perform what is to be done, and hand the next reply to the session.
    Wait,
    /// Perform what is to be done; that is all.
    Finished,
}

/// What is to be done with the device, in order.
pub struct UsbDevice {
    queue: Vec<Action>,
}

impl View for UsbDevice {
    type V = Seq<Act>;

    closed spec fn view(&self) -> Seq<Act> {
        acts(self.queue@)
    }
}

impl UsbDevice {
    /// Nothing is to be done.
    pub fn new() -> (r: Self)
        ensures
            r@ == Seq::<Act>::empty(),
    {
        let r = UsbDevice { queue: Vec::new() };
        assert(r@ =~= Seq::<Act>::empty());
        r
    }

    /// Which of the connected devices to open: the first of the vendor and the product.
    pub fn open(devices: &[DeviceId], vid: u16, pid: u16) -> (r: Option<usize>)
        ensures
            match r {
                Some(i) => {
                    &&& i < devices@.len()
                    &&& devices@[i as int] == (DeviceId { vid, pid })
                    &&& forall|k: int| 0 <= k < i ==> devices@[k] != (DeviceId { vid, pid })
                },
                None => !devices@.contains(DeviceId { vid, pid }),
            },
    {
        let mut i: usize = 0;
        while i < devices.len()
            invariant
                i <= devices@.len(),
                forall|k: int| 0 <= k < i ==> devices@[k] != (DeviceId { vid, pid }),
            decreases devices@.len() - i,
        {
            if devices[i].vid == vid && devices[i].pid == pid {
                return Some(i);
            }
            i += 1;
        }
        None
    }

    /// Takes what is to be done.
    pub fn take(&mut self) -> (r: Vec<Action>)
        ensures
            acts(r@) == old(self)@,
            final(self)@ == Seq::<Act>::empty(),
    {
        let mut r: Vec<Action> = Vec::new();
        std::mem::swap(&mut r, &mut self.queue);
        assert(self@ =~= Seq::<Act>::empty());
        r
    }

    fn push(&mut self, action: Action)
        ensures
            final(self)@ == old(self)@.push(action@),
    {
        self.queue.push(action);
        assert(acts(self.queue@) =~= acts(old(self).queue@).push(action@));
    }

    /// A message to the user.
    pub fn print(&mut self, text: &'static str)
        ensures
            final(self)@ == old(self)@.push((Act::Print { text: text@ })),
    {
        self.push(Action::Print { text });
    }

    /// A pause.
    pub fn sleep(&mut self, millis: u64)
        ensures
            final(self)@ == old(self)@.push((Act::Sleep { millis })),
    {
        self.push(Action::Sleep { millis });
    }

    fn ctrl_out(&mut self, request: u8, value: u16, data: &[u8])
        ensures
            final(self)@ == old(self)@.push(control_out(request, value, data@)),
    {
        let mut copy: Vec<u8> = Vec::new();
        copy.extend_from_slice(data);
        assert(copy@ =~= data@);
        self.push(Action::ControlOut { request, value, index: 0, data: copy });
    }

    fn ctrl_in(&mut self, request: u8, value: u16, length: u16)
        ensures
            final(self)@ == old(self)@.push(control_in(request, value, length)),
    {
        self.push(Action::ControlIn { request, value, index: 0, length });
    }

    /// Holds the microcontroller in reset, or lets it run.
    pub fn fx2lp_reset(&mut self, reset: bool)
        ensures
            final(self)@ == old(self)@.push(
                control_out(
                    CMD_FX2LP_REQUEST,
                    CPUCS_ADDR,
                    seq![
                        if reset {
                            1u8
                        } else {
                            0u8
                        },
                    ],
                ),
            ),
    {
        let flag: [u8; 1] = [if reset {
            1
        } else {
            0
        }];
        assert(flag@ =~= seq![
            if reset {
                1u8
            } else {
                0u8
            },
        ]);
        self.ctrl_out(CMD_FX2LP_REQUEST, CPUCS_ADDR, &flag);
    }

    /// Reads memory of the microcontroller.
    pub fn fx2lp_sram_read(&mut self, addr: u16, length: u16)
        ensures
            final(self)@ == old(self)@.push(control_in(CMD_FX2LP_REQUEST, addr, length)),
    {
        self.ctrl_in(CMD_FX2LP_REQUEST, addr, length);
    }

    /// Writes memory of the microcontroller.
    pub fn fx2lp_sram_write(&mut self, addr: u16, data: &[u8])
        ensures
            final(self)@ == old(self)@.push(control_out(CMD_FX2LP_REQUEST, addr, data@)),
    {
        self.ctrl_out(CMD_FX2LP_REQUEST, addr, data);
    }

    /// Reads from a device on the I2C bus; the lowest bit of the address says so.
    pub fn i2c_read(&mut self, addr: u16, length: u16)
        ensures
            final(self)@ == old(self)@.push(control_in(CMD_I2C_READ, addr | 1, length)),
    {
        self.ctrl_in(CMD_I2C_READ, addr | 1, length);
    }

    /// Writes to a device on the I2C bus.
    pub fn i2c_write(&mut self, addr: u16, data: &[u8])
        ensures
            final(self)@ == old(self)@.push(control_out(CMD_I2C_WRITE, addr, data@)),
    {
        self.ctrl_out(CMD_I2C_WRITE, addr, data);
    }

    /// Switches the JTAG pins on or off.
    pub fn jtag_enable(&mut self, enable: bool)
        ensures
            final(self)@ == old(self)@.push(
                control_out(
                    CMD_JTAG_ENABLE,
                    if enable {
                        1
                    } else {
                        0
                    },
                    Seq::empty(),
                ),
            ),
    {
        let none: [u8; 0] = [];
        assert(none@ =~= Seq::empty());
        self.ctrl_out(
            CMD_JTAG_ENABLE,
            if enable {
                1
            } else {
                0
            },
            &none,
        );
    }

    /// Sends the first `count` clocks of `data`, each `(tdi << 1) | tms`.
    pub fn jtag_request(&mut self, data: &[u8], count: usize)
        requires
            0 < count <= MAX_COUNT_IN_JTAG_REQUEST,
            count <= data@.len(),
        ensures
            final(self)@ == old(self)@.push(jtag_out(data@.take(count as int))),
    {
        let ghost clocks = data@.take(count as int);
        let n = (count + 3) / 4;
        let mut packed: Vec<u8> = Vec::new();
        let mut k: usize = 0;
        while k < n
            invariant
                clocks == data@.take(count as int),
                0 < count <= MAX_COUNT_IN_JTAG_REQUEST,
                count <= data@.len(),
                n == (count + 3) / 4,
                k <= n,
                packed@ =~= pack_clocks(clocks).take(k as int),
            decreases n - k,
        {
            let a = data[4 * k];
            let b = if 4 * k + 1 < count {
                data[4 * k + 1]
            } else {
                0
            };
            let c = if 4 * k + 2 < count {
                data[4 * k + 2]
            } else {
                0
            };
            let d = if 4 * k + 3 < count {
                data[4 * k + 3]
            } else {
                0
            };
            packed.push(a | (b << 2) | (c << 4) | (d << 6));
            k += 1;
        }
        assert(packed@ =~= pack_clocks(clocks));
        self.ctrl_out(CMD_JTAG_REQUEST, count as u16, packed.as_slice());
    }

    /// Asks for the `count` samples that the last clocks read.
    pub fn jtag_response(&mut self, count: usize)
        requires
            count <= MAX_COUNT_IN_JTAG_REQUEST,
        ensures
            final(self)@ == old(self)@.push(jtag_in(count as int)),
    {
        self.ctrl_in(CMD_JTAG_RESPONSE, 0, ((count + 3) / 4) as u16);
    }

    /// The samples in the reply to `jtag_response`.
    pub fn jtag_samples(reply: &[u8], count: usize) -> (r: Vec<u8>)
        requires
            count <= MAX_COUNT_IN_JTAG_REQUEST,
            reply@.len() <= reply_size(count as int),
        ensures
            r@ == unpack_samples(reply@, count as int),
    {
        let n = (count + 7) / 8;
        let mut r: Vec<u8> = Vec::new();
        let mut k: usize = 0;
        while k < n
            invariant
                count <= MAX_COUNT_IN_JTAG_REQUEST,
                n == (count + 7) / 8,
                k <= n,
                r@ =~= unpack_samples(reply@, count as int).take(k as int),
            decreases n - k,
        {
            let low = if 2 * k < reply.len() {
                reply[2 * k]
            } else {
                0
            };
            let high = if 2 * k + 1 < reply.len() {
                reply[2 * k + 1]
            } else {
                0
            };
            r.push((low & 0x0f) | ((high & 0x0f) << 4));
            k += 1;
        }
        assert(r@ =~= unpack_samples(reply@, count as int));
        r
    }

    /// Sets a control bit of the capture hardware.
    pub fn ctrl(&mut self, index: u8, value: bool)
        ensures
            final(self)@ == old(self)@.push(set_ctrl(index, value)),
    {
        let none: [u8; 0] = [];
        assert(none@ =~= Seq::empty());
        let bit: u16 = if value {
            16
        } else {
            0
        };
        self.ctrl_out(CMD_CTRL, index as u16 | bit, &none);
    }

    /// Throws away what the data endpoint still holds.
    pub fn flush_data(&mut self)
        ensures
            final(self)@ == old(self)@.push(drain()),
    {
        self.push(
            Action::Drain {
                attempts: FLUSH_ATTEMPTS,
                size: DATA_ENDPOINT_SIZE,
                timeout_ms: FLUSH_TIMEOUT_MS,
            },
        );
    }

    /// Brings the capture hardware to a known state.
    pub fn ctrl_init(&mut self)
        ensures
            final(self)@ == old(self)@ + init_acts(),
    {
        self.ctrl(CaptureCtrl::RESET, true);
        self.ctrl(CaptureCtrl::ENABLE, false);
        self.ctrl(CaptureCtrl::TEST, false);
        self.ctrl(CaptureCtrl::SPEED0, true);
        self.ctrl(CaptureCtrl::SPEED0, false);
        self.ctrl(CaptureCtrl::SPEED1, true);
        self.ctrl(CaptureCtrl::SPEED1, false);
        assert(self@ =~= old(self)@ + init_acts());
    }

    /// What to do with a bulk transfer that ended and brought `len` bytes.
    pub fn data_transfer_loop(status: TransferStatus, len: usize) -> (r: TransferStep)
        ensures
            r == (if status == TransferStatus::Failed {
                TransferStep::Fail
            } else if len > 0 {
                TransferStep::Deliver
            } else {
                TransferStep::Resubmit
            }),
    {
        match status {
            TransferStatus::Failed => TransferStep::Fail,
            _ => if len > 0 {
                TransferStep::Deliver
            } else {
                TransferStep::Resubmit
            },
        }
    }

    /// Starts the test pattern; its data goes to the state that is returned.
    pub fn speed_test(&mut self) -> (r: SpeedTestState)
        ensures
            final(self)@ == old(self)@ + speed_test_acts(),
            r@ == (SpeedTest { bytes: 0, count: 0, rand: 0 }),
    {
        self.ctrl_init();
        self.ctrl(CaptureCtrl::RESET, true);
        self.ctrl(CaptureCtrl::TEST, true);
        self.flush_data();
        self.ctrl(CaptureCtrl::RESET, false);
        assert(self@ =~= old(self)@ + speed_test_acts());
        SpeedTestState::new()
    }
}

/// The generator of the test pattern, seeded when its state is zero.
pub open spec fn rand16_next(state: u16) -> u16 {
    let s = if state == 0 {
        0x6c41u16
    } else {
        state
    };
    let s = s ^ (s << 7);
    let s = s ^ (s >> 9);
    s ^ (s << 8)
}

/// Advances the generator of the test pattern and returns its next value.
pub fn rand16(state: &mut u16) -> (r: u16)
    ensures
        r == rand16_next(*old(state)),
        *final(state) == r,
{
    if *state == 0 {
        *state = 0x6c41;
    }
    *state = *state ^ (*state << 7);
    *state = *state ^ (*state >> 9);
    *state = *state ^ (*state << 8);
    *state
}

/// The `n`-th value that the generator gives from `state`; for zero, `state` itself.
pub open spec fn rand16_after(state: u16, n: nat) -> u16
    decreases n,
{
    if n == 0 {
        state
    } else {
        rand16_next(rand16_after(state, (n - 1) as nat))
    }
}

/// The little-endian 16-bit words in `data`; an odd byte at the end is dropped.
pub open spec fn words(data: Seq<u8>) -> Seq<u16> {
    Seq::new(data.len() / 2, |i: int| (data[2 * i] + 256 * data[2 * i + 1]) as u16)
}

/// Splits data into little-endian 16-bit words.
pub fn bytemuck_cast_slice(data: &[u8]) -> (r: Vec<u16>)
    ensures
        r@ == words(data@),
{
    let len = data.len();
    let n = len / 2;
    let mut r: Vec<u16> = Vec::new();
    let mut i: usize = 0;
    while i < n
        invariant
            len == data@.len(),
            n == len / 2,
            i <= n,
            r@ =~= words(data@).take(i as int),
        decreases n - i,
    {
        r.push(data[2 * i] as u16 + 256 * data[2 * i + 1] as u16);
        i += 1;
    }
    assert(r@ =~= words(data@));
    r
}

/// The state of a speed test in mathematical terms.
pub struct SpeedTest {
    /// Bytes received since the last report.
    pub bytes: int,
    /// Words checked since the start.
    pub count: int,
    /// The state of the generator.
    pub rand: u16,
}

/// The first `n` words are those that the generator gives.
pub open spec fn matching(expected_from: u16, received: Seq<u16>, n: int) -> bool {
    forall|i: int|
        0 <= i < n ==> #[trigger] received[i] == rand16_after(expected_from, (i + 1) as nat)
}

/// Measures the transfer rate, and checks what arrives against the generator.
pub struct SpeedTestState {
    bytes: usize,
    count: u64,
    rand: u16,
}

impl View for SpeedTestState {
    type V = SpeedTest;

    closed spec fn view(&self) -> SpeedTest {
        SpeedTest { bytes: self.bytes as int, count: self.count as int, rand: self.rand }
    }
}

impl SpeedTestState {
    /// A test that has received nothing.
    pub fn new() -> (r: Self)
        ensures
            r@ == (SpeedTest { bytes: 0, count: 0, rand: 0 }),
    {
        SpeedTestState { bytes: 0, count: 0, rand: 0 }
    }

    /// Whether `process` can take `len` more bytes before a counter overflows.
    pub fn can_process(&self, len: usize) -> (r: bool)
        ensures
            r == (self@.bytes + len <= usize::MAX && self@.count + len / 2 <= u64::MAX),
    {
        len <= usize::MAX - self.bytes && len as u64 / 2 <= u64::MAX - self.count
    }

    /// Checks a chunk of the test pattern and counts its bytes. In case of an error, the number
    /// of words that were right before the first wrong one.
    pub fn process(&mut self, data: &[u8]) -> (r: Result<(), u64>)
        requires
            old(self)@.bytes + data@.len() <= usize::MAX,
            old(self)@.count + words(data@).len() <= u64::MAX,
        ensures
            match r {
                Ok(()) => {
                    &&& matching(old(self)@.rand, words(data@), words(data@).len() as int)
                    &&& final(self)@ == (SpeedTest {
                        bytes: old(self)@.bytes + data@.len(),
                        count: old(self)@.count + words(data@).len(),
                        rand: rand16_after(old(self)@.rand, words(data@).len()),
                    })
                },
                Err(count) => {
                    let wrong = count - old(self)@.count;
                    &&& 0 <= wrong < words(data@).len()
                    &&& matching(old(self)@.rand, words(data@), wrong)
                    &&& words(data@)[wrong] != rand16_after(old(self)@.rand, (wrong + 1) as nat)
                    &&& final(self)@ == (SpeedTest {
                        bytes: old(self)@.bytes,
                        count: count as int,
                        rand: rand16_after(old(self)@.rand, (wrong + 1) as nat),
                    })
                },
            },
    {
        let received = bytemuck_cast_slice(data);
        let mut i: usize = 0;
        while i < received.len()
            invariant
                received@ == words(data@),
                i <= received@.len(),
                self@.count == old(self)@.count + i,
                self@.bytes == old(self)@.bytes,
                self@.rand == rand16_after(old(self)@.rand, i as nat),
                old(self)@.count + words(data@).len() <= u64::MAX,
                matching(old(self)@.rand, received@, i as int),
            decreases received@.len() - i,
        {
            let expected = rand16(&mut self.rand);
            assert(expected == rand16_after(old(self)@.rand, (i + 1) as nat));
            if received[i] != expected {
                return Err(self.count);
            }
            self.count += 1;
            i += 1;
        }
        self.bytes += data.len();
        Ok(())
    }

    /// The bytes received since the last report, if a second has passed; the count starts again.
    pub fn report(&mut self, elapsed_ns: u64) -> (r: Option<usize>)
        ensures
            match r {
                Some(bytes) => {
                    &&& elapsed_ns >= 1_000_000_000
                    &&& bytes == old(self)@.bytes
                    &&& final(self)@ == (SpeedTest { bytes: 0, ..old(self)@ })
                },
                None => {
                    &&& elapsed_ns < 1_000_000_000
                    &&& final(self)@ == old(self)@
                },
            },
    {
        if elapsed_ns >= 1_000_000_000 {
            let bytes = self.bytes;
            self.bytes = 0;
            Some(bytes)
        } else {
            None
        }
    }
}

} // verus!
