//! The flash memory of the FPGA: erasing and programming it.

use vstd::prelude::*;

use crate::fpga;
use crate::fpga::{
    FpgaError, ISC_DISABLE, ISC_ENABLE, ISC_ENABLE_FLASH, ISC_ENABLE_SRAM, ISC_ERASE,
    ISC_ERASE_ALL_NV, ISC_ERASE_SRAM, ISC_NOOP, ISC_PROGRAM_DONE, LSC_CHECK_BUSY,
    LSC_INIT_ADDRESS, LSC_PROG_FEABITS, LSC_PROG_FEATURE, LSC_PROG_INCR_NV, LSC_READ_FEABITS,
    LSC_READ_FEATURE, LSC_READ_INCR_NV, LSC_READ_STATUS, LSC_REFRESH, ROW_BYTES, STATUS_BUSY,
    STATUS_FAIL,
};
use crate::jed;
use crate::jed::{Jed, JedFile, FLASH_ROW_SIZE};
use crate::jtag;
use crate::jtag::{Jtag, JtagState};
use crate::usb;
use crate::usb::{Act, SessionStep, UsbDevice, MAX_COUNT_IN_JTAG_REQUEST};

verus! {

/// What the device is busy with.
#[derive(Clone, Copy, PartialEq, Eq, Structural, Debug)]
pub enum Wait {
    Erase,
    Row { row: usize },
    Feature,
    Feabits,
    Done,
}

/// Which reply a session waits for, or how it ended.
#[derive(Clone, Copy, PartialEq, Eq, Structural, Debug)]
pub enum FlashStage {
    /// The busy flag.
    Busy { of: Wait },
    /// The status register, after the busy flag was clear.
    Status { of: Wait },
    /// A row that was programmed.
    VerifyRow { row: usize },
    /// The feature row.
    VerifyFeature,
    /// The feature bits.
    VerifyFeabits,
    Finished,
    Failed { error: FpgaError },
}

/// A session in mathematical terms.
pub struct Flash {
    pub jtag: Jtag,
    pub stage: FlashStage,
    pub erase_only: bool,
    pub jed: Jed,
}

/// A message to the user.
pub open spec fn print(text: Seq<char>) -> Act {
    Act::Print { text }
}

/// How many samples the reply that is waited for has.
pub open spec fn samples(stage: FlashStage) -> int {
    match stage {
        FlashStage::Busy { .. } => 1,
        FlashStage::Status { .. } => 32,
        FlashStage::VerifyRow { .. } => 128,
        FlashStage::VerifyFeature => 64,
        FlashStage::VerifyFeabits => 16,
        _ => 0,
    }
}

impl Flash {
    /// How many rows the configuration has.
    pub open spec fn rows(self) -> int {
        self.jed.config.len() as int / ROW_BYTES as int
    }

    /// The bytes of a row.
    pub open spec fn row(self, row: int) -> Seq<u8> {
        self.jed.config.subrange(ROW_BYTES * row, ROW_BYTES * row + ROW_BYTES)
    }

    /// Something is done with the device.
    pub open spec fn act(self, a: Act) -> Flash {
        Flash { jtag: self.jtag.act(a), ..self }
    }

    /// More clocks.
    pub open spec fn clks(self, s: Seq<u8>) -> Flash {
        Flash { jtag: self.jtag.clks(s), ..self }
    }

    /// The data register was read.
    pub open spec fn end_read(self) -> Flash {
        Flash { jtag: self.jtag.end_read(), ..self }
    }

    /// The data register is read, and the reply is waited for.
    pub open spec fn read(self, stage: FlashStage) -> Flash {
        Flash { jtag: self.jtag.read_dr(samples(stage) as nat), stage, ..self }
    }

    /// The session has ended with an error.
    pub open spec fn failed(self, error: FpgaError) -> Flash {
        Flash { stage: FlashStage::Failed { error }, ..self }
    }

    /// The busy flag is read.
    pub open spec fn poll_busy(self, of: Wait) -> Flash {
        self.clks(jtag::ir_clocks(LSC_CHECK_BUSY)).read(FlashStage::Busy { of })
    }

    /// The SRAM and then everything that outlasts power is erased.
    pub open spec fn erase(self) -> Flash {
        self.clks(jtag::ir_clocks(ISC_ENABLE)).clks(
            jtag::dr_clocks(seq![ISC_ENABLE_SRAM], 8),
        ).clks(jtag::idle(8)).clks(jtag::ir_clocks(ISC_ERASE)).clks(
            jtag::dr_clocks(seq![ISC_ERASE_SRAM], 8),
        ).clks(jtag::idle(8)).clks(jtag::ir_clocks(ISC_NOOP)).clks(
            jtag::ir_clocks(ISC_ENABLE),
        ).clks(jtag::dr_clocks(seq![ISC_ENABLE_FLASH], 8)).clks(jtag::idle(8)).clks(
            jtag::ir_clocks(ISC_ERASE),
        ).clks(jtag::dr_clocks(seq![ISC_ERASE_ALL_NV], 8)).clks(jtag::idle(8)).poll_busy(
            Wait::Erase,
        )
    }

    /// Rows are programmed from `row` on; after the last one they are verified.
    pub open spec fn program_row(self, row: int) -> Flash {
        if row < self.rows() {
            self.clks(jtag::ir_clocks(LSC_PROG_INCR_NV)).clks(
                jtag::dr_clocks(self.row(row), FLASH_ROW_SIZE as nat),
            ).clks(jtag::idle(1000)).poll_busy(Wait::Row { row: row as usize })
        } else {
            self.act(print("\n"@)).act(print("Verifying configuration data\n"@)).clks(
                jtag::ir_clocks(LSC_INIT_ADDRESS),
            ).clks(jtag::idle(8)).clks(jtag::ir_clocks(LSC_READ_INCR_NV)).clks(
                jtag::idle(8),
            ).verify_row(0)
        }
    }

    /// Rows are read back from `row` on; after the last one the feature row is programmed.
    pub open spec fn verify_row(self, row: int) -> Flash {
        if row < self.rows() {
            self.read(FlashStage::VerifyRow { row: row as usize })
        } else {
            self.act(print("Programming and verifying Feature Row\n"@)).clks(
                jtag::ir_clocks(LSC_INIT_ADDRESS),
            ).clks(jtag::idle(8)).clks(jtag::ir_clocks(LSC_PROG_FEATURE)).clks(
                jtag::dr_clocks(self.jed.feature, 64),
            ).clks(jtag::idle(8)).poll_busy(Wait::Feature)
        }
    }

    /// The feature bits are programmed.
    pub open spec fn program_feabits(self) -> Flash {
        self.act(print("Programming and verifying FEABITS\n"@)).clks(
            jtag::ir_clocks(LSC_PROG_FEABITS),
        ).clks(jtag::dr_clocks(self.jed.feabits, 16)).clks(jtag::idle(8)).poll_busy(Wait::Feabits)
    }

    /// The device is told that programming is done.
    pub open spec fn program_done(self) -> Flash {
        self.act(print("Exiting programming mode\n"@)).clks(
            jtag::ir_clocks(ISC_PROGRAM_DONE),
        ).clks(jtag::idle(1000)).poll_busy(Wait::Done)
    }

    /// The device leaves the configuration mode and loads what was programmed.
    pub open spec fn finish(self) -> Flash {
        let m = self.clks(jtag::ir_clocks(ISC_DISABLE)).clks(jtag::idle(8)).clks(
            jtag::ir_clocks(ISC_NOOP),
        ).clks(jtag::idle(100)).clks(jtag::ir_clocks(LSC_REFRESH)).clks(jtag::idle(8)).clks(
            jtag::ir_clocks(ISC_NOOP),
        ).clks(jtag::idle(100));
        Flash { jtag: m.jtag.sync(), stage: FlashStage::Finished, ..m }
    }

    /// What follows when the device is no longer busy.
    pub open spec fn ready(self, of: Wait) -> Flash {
        match of {
            Wait::Erase => if self.erase_only {
                Flash { stage: FlashStage::Finished, ..self }
            } else {
                self.act(print("Programming configuration data \n"@)).clks(
                    jtag::ir_clocks(LSC_INIT_ADDRESS),
                ).clks(jtag::idle(8)).program_row(0)
            },
            Wait::Row { row } => if row % 256 == 0 {
                self.act(print("."@)).program_row(row + 1)
            } else {
                self.program_row(row + 1)
            },
            Wait::Feature => self.clks(jtag::ir_clocks(LSC_READ_FEATURE)).read(
                FlashStage::VerifyFeature,
            ),
            Wait::Feabits => self.clks(jtag::ir_clocks(LSC_READ_FEABITS)).clks(jtag::idle(8)).read(
                FlashStage::VerifyFeabits,
            ),
            Wait::Done => self.finish(),
        }
    }

    /// What follows the reply that was waited for.
    pub open spec fn resume(self, reply: Seq<u8>) -> Flash {
        let read = usb::unpack_samples(reply, samples(self.stage));
        match self.stage {
            FlashStage::Busy { of } => if read[0] == 0 {
                self.end_read().clks(jtag::ir_clocks(LSC_READ_STATUS)).read(
                    FlashStage::Status { of },
                )
            } else {
                self.end_read().poll_busy(of)
            },
            FlashStage::Status { of } => {
                let m = self.end_read().clks(jtag::idle(8));
                if read[1] & STATUS_BUSY != 0 {
                    m.failed(FpgaError::Busy)
                } else if read[1] & STATUS_FAIL != 0 {
                    m.failed(FpgaError::Fail)
                } else {
                    m.ready(of)
                }
            },
            FlashStage::VerifyRow { row } => {
                let m = self.end_read().clks(jtag::idle(8));
                if read != self.row(row as int) {
                    m.failed(FpgaError::Configuration)
                } else {
                    m.verify_row(row + 1)
                }
            },
            FlashStage::VerifyFeature => {
                let m = self.end_read().clks(jtag::idle(8));
                if read != self.jed.feature {
                    m.failed(FpgaError::FeatureRow)
                } else {
                    m.program_feabits()
                }
            },
            FlashStage::VerifyFeabits => {
                let m = self.end_read();
                if read != self.jed.feabits {
                    m.failed(FpgaError::Feabits)
                } else {
                    m.program_done()
                }
            },
            _ => self,
        }
    }

    /// The rows are whole, and the stage is one of a row that there is.
    pub open spec fn wf(self) -> bool {
        &&& self.jed.config.len() % ROW_BYTES as nat == 0
        &&& self.jed.config.len() <= usize::MAX
        &&& self.jed.feature.len() == 8
        &&& self.jed.feabits.len() == 2
        &&& match self.stage {
            FlashStage::Busy { of: Wait::Row { row } } => row < self.rows(),
            FlashStage::Status { of: Wait::Row { row } } => row < self.rows(),
            FlashStage::VerifyRow { row } => row < self.rows(),
            _ => true,
        }
    }
}

/// The outcome of a step.
pub open spec fn outcome(stage: FlashStage) -> Result<SessionStep, FpgaError> {
    match stage {
        FlashStage::Failed { error } => Err(error),
        FlashStage::Finished => Ok(SessionStep::Finished),
        _ => Ok(SessionStep::Wait),
    }
}

/// Erases the flash memory, or programs it.
pub struct FlashSession {
    jtag: JtagState,
    stage: FlashStage,
    erase_only: bool,
    file: JedFile,
}

impl FlashSession {
    /// The clocks that wait to be sent.
    pub closed spec fn pending(&self) -> Seq<u8> {
        self.jtag.pending()
    }

    /// Which reply the session waits for, or how it ended.
    pub closed spec fn stage(&self) -> FlashStage {
        self.stage
    }

    /// The flash memory is erased and not programmed.
    pub closed spec fn erase_only(&self) -> bool {
        self.erase_only
    }

    /// What is programmed.
    pub closed spec fn jed(&self) -> Jed {
        self.file@
    }

    /// The session, with what is to be done with the device.
    pub open spec fn on(&self, bus: Seq<Act>) -> Flash {
        Flash {
            jtag: Jtag { pending: self.pending(), bus },
            stage: self.stage(),
            erase_only: self.erase_only(),
            jed: self.jed(),
        }
    }

    /// What holds of a session at all times.
    pub open spec fn wf(&self) -> bool {
        &&& self.pending().len() < MAX_COUNT_IN_JTAG_REQUEST
        &&& self.on(Seq::empty()).wf()
    }

    fn read(&mut self, device: &mut UsbDevice, stage: FlashStage, size: usize)
        requires
            old(self).jtag.wf(),
            size == samples(stage),
        ensures
            final(self).jtag.wf(),
            final(self).on(final(device)@) == old(self).on(old(device)@).read(stage),
    {
        self.jtag.read_dr(device, size);
        self.stage = stage;
    }

    fn poll_busy(&mut self, device: &mut UsbDevice, of: Wait)
        requires
            old(self).jtag.wf(),
        ensures
            final(self).jtag.wf(),
            final(self).on(final(device)@) == old(self).on(old(device)@).poll_busy(of),
    {
        self.jtag.write_ir(device, LSC_CHECK_BUSY);
        self.read(device, FlashStage::Busy { of }, 1);
    }

    fn erase_flash_with(&mut self, device: &mut UsbDevice)
        requires
            old(self).jtag.wf(),
        ensures
            final(self).jtag.wf(),
            final(self).on(final(device)@) == old(self).on(old(device)@).erase(),
    {
        self.jtag.write_ir(device, ISC_ENABLE);
        fpga::write_byte(&mut self.jtag, device, ISC_ENABLE_SRAM);
        self.jtag.run(device, 8);

        self.jtag.write_ir(device, ISC_ERASE);
        fpga::write_byte(&mut self.jtag, device, ISC_ERASE_SRAM);
        self.jtag.run(device, 8);

        self.jtag.write_ir(device, ISC_NOOP);

        self.jtag.write_ir(device, ISC_ENABLE);
        fpga::write_byte(&mut self.jtag, device, ISC_ENABLE_FLASH);
        self.jtag.run(device, 8);

        self.jtag.write_ir(device, ISC_ERASE);
        fpga::write_byte(&mut self.jtag, device, ISC_ERASE_ALL_NV);
        self.jtag.run(device, 8);

        self.poll_busy(device, Wait::Erase);
    }

    fn program_row(&mut self, device: &mut UsbDevice, row: usize)
        requires
            old(self).jtag.wf(),
            old(self).on(old(device)@).jed.config.len() % ROW_BYTES as nat == 0,
            old(self).on(old(device)@).jed.feature.len() == 8,
        ensures
            final(self).jtag.wf(),
            final(self).on(final(device)@) == old(self).on(old(device)@).program_row(row as int),
    {
        if row < self.file.config.len() / ROW_BYTES {
            let bytes = self.row(row);
            self.jtag.write_ir(device, LSC_PROG_INCR_NV);
            self.jtag.write_dr(device, bytes.as_slice(), FLASH_ROW_SIZE);
            self.jtag.run(device, 1000);
            self.poll_busy(device, Wait::Row { row });
        } else {
            device.print("\n");
            device.print("Verifying configuration data\n");
            self.jtag.write_ir(device, LSC_INIT_ADDRESS);
            self.jtag.run(device, 8);
            self.jtag.write_ir(device, LSC_READ_INCR_NV);
            self.jtag.run(device, 8);
            self.verify_row(device, 0);
        }
    }

    /// The bytes of a row.
    fn row(&self, row: usize) -> (r: Vec<u8>)
        requires
            row < self.file.config@.len() as int / ROW_BYTES as int,
        ensures
            r@ == self.on(Seq::empty()).row(row as int),
            r@.len() == ROW_BYTES,
    {
        let len = self.file.config.len();
        let start = ROW_BYTES * row;
        let mut r: Vec<u8> = Vec::new();
        let mut i: usize = 0;
        while i < ROW_BYTES
            invariant
                len == self.file.config@.len(),
                start == ROW_BYTES * row,
                start + ROW_BYTES <= len,
                i <= ROW_BYTES,
                r@ =~= self.file.config@.subrange(start as int, start + i),
            decreases ROW_BYTES - i,
        {
            r.push(self.file.config[start + i]);
            i += 1;
        }
        r
    }

    fn verify_row(&mut self, device: &mut UsbDevice, row: usize)
        requires
            old(self).jtag.wf(),
            old(self).on(old(device)@).jed.feature.len() == 8,
        ensures
            final(self).jtag.wf(),
            final(self).on(final(device)@) == old(self).on(old(device)@).verify_row(row as int),
    {
        if row < self.file.config.len() / ROW_BYTES {
            self.read(device, FlashStage::VerifyRow { row }, 128);
        } else {
            device.print("Programming and verifying Feature Row\n");
            self.jtag.write_ir(device, LSC_INIT_ADDRESS);
            self.jtag.run(device, 8);
            self.jtag.write_ir(device, LSC_PROG_FEATURE);
            self.jtag.write_dr(device, self.file.feature.as_slice(), 64);
            self.jtag.run(device, 8);
            self.poll_busy(device, Wait::Feature);
        }
    }

    fn program_feabits(&mut self, device: &mut UsbDevice)
        requires
            old(self).jtag.wf(),
            old(self).on(old(device)@).jed.feabits.len() == 2,
        ensures
            final(self).jtag.wf(),
            final(self).on(final(device)@) == old(self).on(old(device)@).program_feabits(),
    {
        device.print("Programming and verifying FEABITS\n");
        self.jtag.write_ir(device, LSC_PROG_FEABITS);
        self.jtag.write_dr(device, self.file.feabits.as_slice(), 16);
        self.jtag.run(device, 8);
        self.poll_busy(device, Wait::Feabits);
    }

    fn program_done(&mut self, device: &mut UsbDevice)
        requires
            old(self).jtag.wf(),
        ensures
            final(self).jtag.wf(),
            final(self).on(final(device)@) == old(self).on(old(device)@).program_done(),
    {
        device.print("Exiting programming mode\n");
        self.jtag.write_ir(device, ISC_PROGRAM_DONE);
        self.jtag.run(device, 1000);
        self.poll_busy(device, Wait::Done);
    }

    fn finish(&mut self, device: &mut UsbDevice)
        requires
            old(self).jtag.wf(),
        ensures
            final(self).jtag.wf(),
            final(self).on(final(device)@) == old(self).on(old(device)@).finish(),
    {
        self.jtag.write_ir(device, ISC_DISABLE);
        self.jtag.run(device, 8);

        self.jtag.write_ir(device, ISC_NOOP);
        self.jtag.run(device, 100);

        self.jtag.write_ir(device, LSC_REFRESH);
        self.jtag.run(device, 8);

        self.jtag.write_ir(device, ISC_NOOP);
        self.jtag.run(device, 100);
        self.jtag.sync(device);
        self.stage = FlashStage::Finished;
    }

    /// What follows when the device is no longer busy.
    fn ready(&mut self, device: &mut UsbDevice, of: Wait)
        requires
            old(self).wf(),
            of matches Wait::Row { row } ==> row < old(self).on(Seq::empty()).rows(),
        ensures
            final(self).jtag.wf(),
            final(self).on(final(device)@) == old(self).on(old(device)@).ready(of),
    {
        match of {
            Wait::Erase => {
                if self.erase_only {
                    self.stage = FlashStage::Finished;
                } else {
                    device.print("Programming configuration data \n");
                    self.jtag.write_ir(device, LSC_INIT_ADDRESS);
                    self.jtag.run(device, 8);
                    self.program_row(device, 0);
                }
            },
            Wait::Row { row } => {
                if row % 256 == 0 {
                    device.print(".");
                }
                self.program_row(device, row + 1);
            },
            Wait::Feature => {
                self.jtag.write_ir(device, LSC_READ_FEATURE);
                self.read(device, FlashStage::VerifyFeature, 64);
            },
            Wait::Feabits => {
                self.jtag.write_ir(device, LSC_READ_FEABITS);
                self.jtag.run(device, 8);
                self.read(device, FlashStage::VerifyFeabits, 16);
            },
            Wait::Done => {
                self.finish(device);
            },
        }
    }

    /// How many bytes the reply has that the session waits for.
    pub fn reply_size(&self) -> (r: usize)
        ensures
            r == usb::reply_size(samples(self.stage())),
    {
        match self.stage {
            FlashStage::Busy { .. } => 1,
            FlashStage::Status { .. } => 8,
            FlashStage::VerifyRow { .. } => 32,
            FlashStage::VerifyFeature => 16,
            FlashStage::VerifyFeabits => 4,
            _ => 0,
        }
    }

    /// Takes a reply of the device; bytes that are missing in it count as zero.
    ///
    /// Whatever the result, what is to be done with the device must be performed.
    pub fn resume(&mut self, device: &mut UsbDevice, reply: &[u8]) -> (r: Result<
        SessionStep,
        FpgaError,
    >)
        requires
            old(self).wf(),
            reply@.len() <= usb::reply_size(samples(old(self).stage())),
        ensures
            final(self).wf(),
            final(self).on(final(device)@) == old(self).on(old(device)@).resume(reply@),
            r == outcome(final(self).stage()),
    {
        let stage = self.stage;
        match stage {
            FlashStage::Busy { of } => {
                let busy = UsbDevice::jtag_samples(reply, 1);
                self.jtag.end_read(device);
                if busy[0] == 0 {
                    self.jtag.write_ir(device, LSC_READ_STATUS);
                    self.read(device, FlashStage::Status { of }, 32);
                } else {
                    self.poll_busy(device, of);
                }
            },
            FlashStage::Status { of } => {
                let status = UsbDevice::jtag_samples(reply, 32);
                self.jtag.end_read(device);
                self.jtag.run(device, 8);
                if status[1] & STATUS_BUSY != 0 {
                    self.stage = FlashStage::Failed { error: FpgaError::Busy };
                } else if status[1] & STATUS_FAIL != 0 {
                    self.stage = FlashStage::Failed { error: FpgaError::Fail };
                } else {
                    self.ready(device, of);
                }
            },
            FlashStage::VerifyRow { row } => {
                let read = UsbDevice::jtag_samples(reply, 128);
                let written = self.row(row);
                self.jtag.end_read(device);
                self.jtag.run(device, 8);
                if !usb::same_bytes(&read, &written) {
                    self.stage = FlashStage::Failed { error: FpgaError::Configuration };
                } else {
                    self.verify_row(device, row + 1);
                }
            },
            FlashStage::VerifyFeature => {
                let read = UsbDevice::jtag_samples(reply, 64);
                self.jtag.end_read(device);
                self.jtag.run(device, 8);
                if !usb::same_bytes(&read, &self.file.feature) {
                    self.stage = FlashStage::Failed { error: FpgaError::FeatureRow };
                } else {
                    self.program_feabits(device);
                }
            },
            FlashStage::VerifyFeabits => {
                let read = UsbDevice::jtag_samples(reply, 16);
                self.jtag.end_read(device);
                if !usb::same_bytes(&read, &self.file.feabits) {
                    self.stage = FlashStage::Failed { error: FpgaError::Feabits };
                } else {
                    self.program_done(device);
                }
            },
            _ => {},
        }
        match self.stage {
            FlashStage::Failed { error } => Err(error),
            FlashStage::Finished => Ok(SessionStep::Finished),
            _ => Ok(SessionStep::Wait),
        }
    }
}

/// A session at its start: nothing is known of the JTAG state machine.
pub open spec fn begun(bus: Seq<Act>, erase_only: bool, jed: Jed) -> Flash {
    let m = Flash { jtag: fpga::fresh(bus), stage: FlashStage::Finished, erase_only, jed };
    if erase_only {
        m.erase()
    } else {
        m.act(print("Erasing flash\n"@)).erase()
    }
}

/// Begins to erase everything in the flash memory.
pub fn erase_flash(device: &mut UsbDevice) -> (r: FlashSession)
    ensures
        r.wf(),
        r.on(final(device)@) == begun(old(device)@, true, r.jed()),
{
    let feature: Vec<u8> = vec![0, 0, 0, 0, 0, 0, 0, 0];
    let feabits: Vec<u8> = vec![0, 0];
    let file = JedFile { config: Vec::new(), feature, feabits };
    let mut r = FlashSession {
        jtag: JtagState::new(),
        stage: FlashStage::Finished,
        erase_only: true,
        file,
    };
    r.erase_flash_with(device);
    r
}

/// Begins to program a JED file into the flash memory: erases it, programs every part of the
/// file, and reads everything back.
pub fn program_flash(device: &mut UsbDevice, data: &[u8]) -> (r: Result<FlashSession, FpgaError>)
    ensures
        match (r, jed::parse_jed(data@)) {
            (Ok(session), Ok(jed)) => {
                &&& session.wf()
                &&& session.on(final(device)@) == begun(old(device)@, false, jed)
            },
            (Err(e), Err(error)) => {
                &&& e == (FpgaError::Jed { error })
                &&& final(device)@ == old(device)@
            },
            _ => false,
        },
{
    let file = match jed::parse_jed_file(data) {
        Ok(file) => file,
        Err(error) => {
            return Err(FpgaError::Jed { error });
        },
    };
    assert(file.config.len() == file.config@.len());
    let mut r = FlashSession {
        jtag: JtagState::new(),
        stage: FlashStage::Finished,
        erase_only: false,
        file,
    };
    device.print("Erasing flash\n");
    r.erase_flash_with(device);
    Ok(r)
}

} // verus!
