//! Access to the FPGA of the capture hardware, by JTAG.
//!
//! What reads from the device is a session: the function that begins it says what is to be done
//! first, and each reply of the device is handed to the session, which says what comes next.

use vstd::prelude::*;
use vstd::string::*;

pub use crate::flash::{erase_flash, program_flash};
use crate::jed;
pub use crate::jed::find_bytes;
use crate::jed::JedError;
use crate::jtag;
use crate::jtag::{Jtag, JtagState};
use crate::text;
use crate::usb;
use crate::usb::{Act, UsbDevice};

verus! {

/// The identification of the LCMXO2-2000HC.
pub const LCMXO2_2000HC_IDCODE: u32 = 0x012bb043;

/// Instruction: read the identification of the device type.
pub const IDCODE_PUB: u8 = 0xe0;

/// Instruction: begin configuration.
pub const ISC_ENABLE: u8 = 0xc6;

/// Instruction: read the busy flag.
pub const LSC_CHECK_BUSY: u8 = 0xf0;

/// Instruction: read the status register.
pub const LSC_READ_STATUS: u8 = 0x3c;

/// Instruction: erase.
pub const ISC_ERASE: u8 = 0x0e;

/// Instruction: go to the first row.
pub const LSC_INIT_ADDRESS: u8 = 0x46;

/// Instruction: program a row and go to the next.
pub const LSC_PROG_INCR_NV: u8 = 0x70;

/// Instruction: program the feature row.
pub const LSC_PROG_FEATURE: u8 = 0xe4;

/// Instruction: read the feature row.
pub const LSC_READ_FEATURE: u8 = 0xe7;

/// Instruction: program the feature bits.
pub const LSC_PROG_FEABITS: u8 = 0xf8;

/// Instruction: read the feature bits.
pub const LSC_READ_FEABITS: u8 = 0xfb;

/// Instruction: read a row and go to the next.
pub const LSC_READ_INCR_NV: u8 = 0x73;

/// Instruction: programming is done.
pub const ISC_PROGRAM_DONE: u8 = 0x5e;

/// Instruction: end configuration.
pub const ISC_DISABLE: u8 = 0x26;

/// Instruction: nothing.
pub const ISC_NOOP: u8 = 0xff;

/// Instruction: load the configuration from the flash memory.
pub const LSC_REFRESH: u8 = 0x79;

/// Instruction: read the identification of this very device.
pub const UIDCODE_PUB: u8 = 0x19;

/// Instruction: load the configuration that follows.
pub const LSC_BITSTREAM_BURST: u8 = 0x7a;

/// Configuration of the SRAM.
pub const ISC_ENABLE_SRAM: u8 = 0x00;

/// Configuration of the flash memory.
pub const ISC_ENABLE_FLASH: u8 = 0x08;

/// Erases the SRAM.
pub const ISC_ERASE_SRAM: u8 = 0x01;

/// Erases the feature row, the configuration and the user memory.
pub const ISC_ERASE_ALL_NV: u8 = 0x0e;

/// The busy bit of the status register, in its second byte.
pub const STATUS_BUSY: u8 = 0x10;

/// The fail bit of the status register, in its second byte.
pub const STATUS_FAIL: u8 = 0x20;

/// Bytes in a row of the flash memory.
pub const ROW_BYTES: usize = 16;

/// What can go wrong.
#[derive(Clone, Copy, PartialEq, Eq, Structural, Debug)]
pub enum FpgaError {
    /// Another device than the one expected.
    Idcode { idcode: u32 },
    /// The file is not for this device.
    NoSignature,
    /// The file makes no sense.
    Jed { error: JedError },
    /// The device is busy, though it said it was not.
    Busy,
    /// The device failed.
    Fail,
    /// The configuration was read back otherwise than it was written.
    Configuration,
    /// The feature row was read back otherwise than it was written.
    FeatureRow,
    /// The feature bits were read back otherwise than they were written.
    Feabits,
}

impl FpgaError {
    /// The error in words.
    pub open spec fn text(self) -> Seq<char> {
        match self {
            FpgaError::Idcode { idcode } => "incorrect FPGA IDCODE (0x"@ + text::hex_fixed(
                idcode as nat,
                8,
            ) + ")"@,
            FpgaError::NoSignature => "malformed BIT file: device signature not found"@,
            FpgaError::Jed { error } => error.text(),
            FpgaError::Busy => "poll_busy_flag: busy"@,
            FpgaError::Fail => "poll_busy_flag: fail"@,
            FpgaError::Configuration => "configuration verification failed"@,
            FpgaError::FeatureRow => "Feature Row verification failed"@,
            FpgaError::Feabits => "FEABITS verification failed"@,
        }
    }

    /// The error in words.
    pub fn message(&self) -> (s: String)
        ensures
            s@ == self.text(),
    {
        match self {
            FpgaError::Idcode { idcode } => {
                let mut s = "incorrect FPGA IDCODE (0x".to_owned();
                s.append(text::hex_fixed_string(*idcode as u64, 8).as_str());
                s.append(")");
                s
            },
            FpgaError::NoSignature => "malformed BIT file: device signature not found".to_owned(),
            FpgaError::Jed { error } => error.message().to_owned(),
            FpgaError::Busy => "poll_busy_flag: busy".to_owned(),
            FpgaError::Fail => "poll_busy_flag: fail".to_owned(),
            FpgaError::Configuration => "configuration verification failed".to_owned(),
            FpgaError::FeatureRow => "Feature Row verification failed".to_owned(),
            FpgaError::Feabits => "FEABITS verification failed".to_owned(),
        }
    }
}

/// The value of little-endian bytes.
pub open spec fn le_value(s: Seq<u8>) -> nat
    decreases s.len(),
{
    if s.len() == 0 {
        0
    } else {
        s[0] as nat + 256 * le_value(s.drop_first())
    }
}

/// Upper bound of a little-endian value of up to eight bytes.
proof fn lemma_le_value_bound(s: Seq<u8>)
    requires
        s.len() <= 8,
    ensures
        s.len() <= 4 ==> le_value(s) <= u32::MAX,
        le_value(s) <= u64::MAX,
{
    reveal_with_fuel(le_value, 9);
}

/// The value of up to eight little-endian bytes.
fn le_value_u64(s: &[u8]) -> (r: u64)
    requires
        s@.len() <= 8,
    ensures
        r == le_value(s@),
{
    let mut r: u64 = 0;
    let mut i: usize = s.len();
    assert(s@.skip(i as int) =~= Seq::empty());
    while i > 0
        invariant
            i <= s@.len() <= 8,
            r == le_value(s@.skip(i as int)),
        decreases i,
    {
        i -= 1;
        assert(s@.skip(i as int).drop_first() =~= s@.skip(i + 1));
        proof {
            lemma_le_value_bound(s@.skip(i as int));
        }
        r = s[i] as u64 + 256 * r;
    }
    assert(s@.skip(0) =~= s@);
    r
}

/// A JTAG state machine of which nothing is known, on a device.
pub open spec fn fresh(bus: Seq<Act>) -> Jtag {
    Jtag { pending: Seq::empty(), bus }
}

/// Switches JTAG on and asks for the identification of the device.
pub open spec fn enable_begun(bus: Seq<Act>) -> Jtag {
    fresh(bus).act(usb::control_out(usb::CMD_JTAG_ENABLE, 1, Seq::empty())).clks(
        jtag::reset_clocks(),
    ).sync().clks(jtag::ir_clocks(IDCODE_PUB)).read_dr(32)
}

/// The device was asked for its identification.
pub struct Enabling {
    jtag: JtagState,
}

impl Enabling {
    /// The clocks that wait to be sent.
    pub closed spec fn pending(&self) -> Seq<u8> {
        self.jtag.pending()
    }

    /// Takes the identification: bytes that are missing in the reply count as zero.
    pub fn resume(self, device: &mut UsbDevice, reply: &[u8]) -> (r: Result<(), FpgaError>)
        requires
            self.pending() == Seq::<u8>::empty(),
            reply@.len() <= usb::reply_size(32),
        ensures
            final(device)@ == fresh(old(device)@).end_read().sync().bus,
            ({
                let idcode = le_value(usb::unpack_samples(reply@, 32));
                r == (if idcode == LCMXO2_2000HC_IDCODE {
                    Ok::<(), FpgaError>(())
                } else {
                    Err(FpgaError::Idcode { idcode: idcode as u32 })
                })
            }),
    {
        let mut jtag = self.jtag;
        let bytes = UsbDevice::jtag_samples(reply, 32);
        jtag.end_read(device);
        jtag.sync(device);
        proof {
            lemma_le_value_bound(bytes@);
        }
        let idcode = le_value_u64(bytes.as_slice()) as u32;
        if idcode != LCMXO2_2000HC_IDCODE {
            Err(FpgaError::Idcode { idcode })
        } else {
            Ok(())
        }
    }
}

/// Begins access to the FPGA: switches JTAG on and asks for the identification of the device.
pub fn enable(device: &mut UsbDevice) -> (r: Enabling)
    ensures
        r.pending() == Seq::<u8>::empty(),
        final(device)@ == enable_begun(old(device)@).bus,
{
    let mut jtag = JtagState::new();
    device.jtag_enable(true);
    jtag.reset(device);
    jtag.sync(device);
    read_idcode_with(device, &mut jtag);
    Enabling { jtag }
}

/// Asks for the identification of the device.
fn read_idcode_with(device: &mut UsbDevice, jtag: &mut JtagState)
    requires
        old(jtag).wf(),
    ensures
        final(jtag).wf(),
        final(jtag).on(final(device)) == old(jtag).on(old(device)).clks(
            jtag::ir_clocks(IDCODE_PUB),
        ).read_dr(32),
        final(jtag).pending() == Seq::<u8>::empty(),
{
    jtag.write_ir(device, IDCODE_PUB);
    jtag.read_dr(device, 32);
}

/// Ends access to the FPGA.
pub fn disable(device: &mut UsbDevice)
    ensures
        final(device)@ == fresh(old(device)@).clks(jtag::reset_clocks()).sync().act(
            usb::control_out(usb::CMD_JTAG_ENABLE, 0, Seq::empty()),
        ).bus,
{
    let mut jtag = JtagState::new();
    jtag.reset(device);
    jtag.sync(device);
    device.jtag_enable(false);
}

/// Asks for the identification of this very device; the reply goes to `traceid`.
pub fn read_traceid(device: &mut UsbDevice)
    ensures
        final(device)@ == fresh(old(device)@).clks(jtag::ir_clocks(UIDCODE_PUB)).read_dr(64).bus,
{
    let mut jtag = JtagState::new();
    jtag.write_ir(device, UIDCODE_PUB);
    jtag.read_dr(device, 64);
}

/// The identification in the reply to `read_traceid`.
pub fn traceid(reply: &[u8]) -> (r: u64)
    requires
        reply@.len() <= usb::reply_size(64),
    ensures
        r == le_value(usb::unpack_samples(reply@, 64)),
{
    let bytes = UsbDevice::jtag_samples(reply, 64);
    le_value_u64(bytes.as_slice())
}

/// A configuration is loaded into the SRAM.
pub open spec fn sram_programmed(j: Jtag, data: Seq<u8>) -> Jtag {
    j.clks(jtag::ir_clocks(ISC_ENABLE)).clks(jtag::dr_clocks(seq![ISC_ENABLE_SRAM], 8)).clks(
        jtag::idle(8),
    ).clks(jtag::ir_clocks(ISC_ERASE)).clks(jtag::dr_clocks(seq![ISC_ERASE_SRAM], 8)).clks(
        jtag::idle(8),
    ).clks(jtag::ir_clocks(LSC_BITSTREAM_BURST)).clks(jtag::idle(8)).clks(seq![1u8, 0, 0]).clks(
        jtag::burst_clocks(data),
    ).clks(seq![1u8, 0]).clks(jtag::idle(100)).clks(jtag::ir_clocks(ISC_DISABLE)).clks(
        jtag::idle(8),
    ).clks(jtag::ir_clocks(ISC_NOOP)).clks(jtag::idle(100)).sync()
}

/// Loads a BIT file into the SRAM of the FPGA, which forgets it without power.
pub fn program_sram(device: &mut UsbDevice, data: &[u8]) -> (r: Result<(), FpgaError>)
    ensures
        if jed::names_device(data@) {
            &&& r == Ok::<(), FpgaError>(())
            &&& final(device)@ == sram_programmed(fresh(old(device)@), data@).bus
        } else {
            &&& r == Err::<(), FpgaError>(FpgaError::NoSignature)
            &&& final(device)@ == old(device)@
        },
{
    if !jed::bitstream_valid(data) {
        return Err(FpgaError::NoSignature);
    }
    let mut jtag = JtagState::new();

    jtag.write_ir(device, ISC_ENABLE);
    write_byte(&mut jtag, device, ISC_ENABLE_SRAM);
    jtag.run(device, 8);

    jtag.write_ir(device, ISC_ERASE);
    write_byte(&mut jtag, device, ISC_ERASE_SRAM);
    jtag.run(device, 8);

    jtag.write_ir(device, LSC_BITSTREAM_BURST);
    jtag.run(device, 8);

    jtag.begin_shift(device);
    jtag.burst(device, data);
    jtag.end_read(device);
    jtag.run(device, 100);

    jtag.write_ir(device, ISC_DISABLE);
    jtag.run(device, 8);

    jtag.write_ir(device, ISC_NOOP);
    jtag.run(device, 100);
    jtag.sync(device);
    Ok(())
}

/// Shifts one byte into the device.
pub(crate) fn write_byte(jtag: &mut JtagState, device: &mut UsbDevice, b: u8)
    requires
        old(jtag).wf(),
    ensures
        final(jtag).wf(),
        final(jtag).on(final(device)) == old(jtag).on(old(device)).clks(
            jtag::dr_clocks(seq![b], 8),
        ),
{
    let data: [u8; 1] = [b];
    assert(data@ =~= seq![b]);
    jtag.write_dr(device, &data, 8);
}

} // verus!
