//! Firmware of the FX2LP microcontroller: into its memory, or into the EEPROM it boots from.

use vstd::prelude::*;
use vstd::string::*;

use crate::text;
use crate::usb;
use crate::usb::{Act, SessionStep, UsbDevice, USB_EP0_SIZE};

verus! {

/// The I2C address of the EEPROM.
pub const EEPROM_ADDR: u16 = 0xa2;

/// Bytes that are written to the EEPROM at a time.
pub const EEPROM_PAGE_SIZE: usize = 32;

/// Bytes of the memory, and of the EEPROM.
pub const FX2LP_SIZE: usize = 16384;

/// Bytes before the firmware in the EEPROM.
pub const FX2LP_HEADER: usize = 12;

/// Bytes after the firmware in the EEPROM.
pub const FX2LP_FOOTER: usize = 5;

/// How long the EEPROM takes to write a page, in milliseconds.
pub const EEPROM_WRITE_MS: u64 = 7;

/// What can go wrong.
#[derive(Clone, Copy, PartialEq, Eq, Structural, Debug)]
pub enum Fx2lpError {
    SramTooBig,
    SramVerification,
    EepromTooBig,
    EepromVerification,
    EepromRequest { addr: usize, size: usize },
}

impl Fx2lpError {
    /// The error in words.
    pub open spec fn text(self) -> Seq<char> {
        match self {
            Fx2lpError::SramTooBig => "sram_upload: file is too big"@,
            Fx2lpError::SramVerification => "sram_upload: verification failed"@,
            Fx2lpError::EepromTooBig => "eeprom_upload: file is too big"@,
            Fx2lpError::EepromVerification => "eeprom_upload: verification failed"@,
            Fx2lpError::EepromRequest { addr, size } => "eeprom: invalid request (addr=0x"@
                + text::hex(addr as nat) + ", size="@ + text::dec(size as nat) + ")"@,
        }
    }

    /// The error in words.
    pub fn message(&self) -> (s: String)
        ensures
            s@ == self.text(),
    {
        match self {
            Fx2lpError::SramTooBig => "sram_upload: file is too big".to_owned(),
            Fx2lpError::SramVerification => "sram_upload: verification failed".to_owned(),
            Fx2lpError::EepromTooBig => "eeprom_upload: file is too big".to_owned(),
            Fx2lpError::EepromVerification => "eeprom_upload: verification failed".to_owned(),
            Fx2lpError::EepromRequest { addr, size } => {
                let mut s = "eeprom: invalid request (addr=0x".to_owned();
                s.append(text::hex_string(*addr as u64).as_str());
                s.append(", size=");
                s.append(text::dec_string(*size as u64).as_str());
                s.append(")");
                s
            },
        }
    }
}

/// How far an upload is.
#[derive(Clone, Copy, PartialEq, Eq, Structural, Debug)]
pub enum UploadStage {
    /// What was written last is being read back.
    Verify,
    Finished,
    Failed,
}

/// The outcome of a step.
pub open spec fn outcome(stage: UploadStage, failure: Fx2lpError) -> Result<
    SessionStep,
    Fx2lpError,
> {
    match stage {
        UploadStage::Verify => Ok(SessionStep::Wait),
        UploadStage::Finished => Ok(SessionStep::Finished),
        UploadStage::Failed => Err(failure),
    }
}

/// The microcontroller is held in reset, or let go.
pub open spec fn set_reset(reset: bool) -> Act {
    usb::control_out(
        usb::CMD_FX2LP_REQUEST,
        usb::CPUCS_ADDR,
        seq![
            if reset {
                1u8
            } else {
                0u8
            },
        ],
    )
}

/// An upload to the memory, in mathematical terms.
pub struct Sram {
    pub bus: Seq<Act>,
    pub data: Seq<u8>,
    /// Where the next bytes go, or those that are being read back.
    pub addr: int,
    pub stage: UploadStage,
}

/// At most a packet of `data`, from `addr` on.
pub open spec fn chunk(data: Seq<u8>, addr: int) -> Seq<u8> {
    data.subrange(
        addr,
        if addr + USB_EP0_SIZE < data.len() {
            addr + USB_EP0_SIZE
        } else {
            data.len() as int
        },
    )
}

impl Sram {
    /// The next bytes are written and read back; after the last ones the firmware is started.
    pub open spec fn next(self) -> Sram {
        if self.addr < self.data.len() {
            let part = chunk(self.data, self.addr);
            Sram {
                bus: self.bus.push(
                    usb::control_out(usb::CMD_FX2LP_REQUEST, self.addr as u16, part),
                ).push(
                    usb::control_in(usb::CMD_FX2LP_REQUEST, self.addr as u16, part.len() as u16),
                ),
                stage: UploadStage::Verify,
                ..self
            }
        } else {
            Sram { bus: self.bus.push(set_reset(false)), stage: UploadStage::Finished, ..self }
        }
    }

    /// What follows when the bytes were read back.
    pub open spec fn resume(self, reply: Seq<u8>) -> Sram {
        let part = chunk(self.data, self.addr);
        if self.stage != UploadStage::Verify {
            self
        } else if usb::received(reply, part.len() as int) == part {
            Sram { addr: self.addr + part.len(), ..self }.next()
        } else {
            Sram { stage: UploadStage::Failed, ..self }
        }
    }

    /// What holds of an upload at all times.
    pub open spec fn wf(self) -> bool {
        &&& self.data.len() <= FX2LP_SIZE
        &&& 0 <= self.addr <= self.data.len()
        &&& self.stage == UploadStage::Verify ==> self.addr < self.data.len()
    }
}

/// An upload to the memory of the microcontroller.
pub struct SramUpload {
    data: Vec<u8>,
    addr: usize,
    stage: UploadStage,
}

impl SramUpload {
    /// The firmware.
    pub closed spec fn data(&self) -> Seq<u8> {
        self.data@
    }

    /// Where the bytes go that are being read back.
    pub closed spec fn addr(&self) -> int {
        self.addr as int
    }

    /// How far the upload is.
    pub closed spec fn stage(&self) -> UploadStage {
        self.stage
    }

    /// The upload, with what is to be done with the device.
    pub open spec fn on(&self, bus: Seq<Act>) -> Sram {
        Sram { bus, data: self.data(), addr: self.addr(), stage: self.stage() }
    }

    /// What holds of an upload at all times.
    pub open spec fn wf(&self) -> bool {
        self.on(Seq::empty()).wf()
    }

    /// At most a packet, from `addr` on.
    fn part(&self) -> (r: Vec<u8>)
        requires
            self.wf(),
        ensures
            r@ == chunk(self.data(), self.addr()),
    {
        let end = if self.addr + USB_EP0_SIZE < self.data.len() {
            self.addr + USB_EP0_SIZE
        } else {
            self.data.len()
        };
        let mut r: Vec<u8> = Vec::new();
        let mut i = self.addr;
        while i < end
            invariant
                self.addr <= i <= end <= self.data@.len(),
                r@ =~= self.data@.subrange(self.addr as int, i as int),
            decreases end - i,
        {
            r.push(self.data[i]);
            i += 1;
        }
        r
    }

    fn next(&mut self, device: &mut UsbDevice)
        requires
            old(self).wf(),
        ensures
            final(self).wf(),
            final(self).on(final(device)@) == old(self).on(old(device)@).next(),
    {
        if self.addr < self.data.len() {
            let part = self.part();
            device.fx2lp_sram_write(self.addr as u16, part.as_slice());
            device.fx2lp_sram_read(self.addr as u16, part.len() as u16);
            self.stage = UploadStage::Verify;
        } else {
            device.fx2lp_reset(false);
            self.stage = UploadStage::Finished;
        }
    }

    /// Whether there is nothing to wait for, as with firmware of no bytes.
    pub fn is_finished(&self) -> (r: bool)
        ensures
            r == (self.stage() == UploadStage::Finished),
    {
        self.stage == UploadStage::Finished
    }

    /// How many bytes the reply has that the upload waits for.
    pub fn reply_size(&self) -> (r: usize)
        requires
            self.wf(),
        ensures
            r == chunk(self.data(), self.addr()).len(),
    {
        self.part().len()
    }

    /// Takes what was read back; bytes that are missing in it count as zero.
    pub fn resume(&mut self, device: &mut UsbDevice, reply: &[u8]) -> (r: Result<
        SessionStep,
        Fx2lpError,
    >)
        requires
            old(self).wf(),
            reply@.len() <= chunk(old(self).data(), old(self).addr()).len(),
        ensures
            final(self).wf(),
            final(self).on(final(device)@) == old(self).on(old(device)@).resume(reply@),
            r == outcome(final(self).stage(), Fx2lpError::SramVerification),
    {
        if self.stage == UploadStage::Verify {
            let part = self.part();
            if usb::reply_is(reply, part.as_slice()) {
                self.addr = self.addr + part.len();
                self.stage = UploadStage::Finished;
                self.next(device);
            } else {
                self.stage = UploadStage::Failed;
            }
        }
        match self.stage {
            UploadStage::Verify => Ok(SessionStep::Wait),
            UploadStage::Finished => Ok(SessionStep::Finished),
            UploadStage::Failed => Err(Fx2lpError::SramVerification),
        }
    }
}

/// An upload to the memory at its start: the microcontroller is held in reset.
pub open spec fn sram_begun(bus: Seq<Act>, data: Seq<u8>) -> Sram {
    Sram { bus: bus.push(set_reset(true)), data, addr: 0, stage: UploadStage::Finished }.next()
}

/// Begins to load firmware into the memory of the microcontroller, to be started at once.
pub fn sram_upload(device: &mut UsbDevice, data: &[u8]) -> (r: Result<SramUpload, Fx2lpError>)
    ensures
        match r {
            Ok(upload) => {
                &&& data@.len() <= FX2LP_SIZE
                &&& upload.wf()
                &&& upload.on(final(device)@) == sram_begun(old(device)@, data@)
            },
            Err(e) => {
                &&& data@.len() > FX2LP_SIZE
                &&& e == Fx2lpError::SramTooBig
                &&& final(device)@ == old(device)@
            },
        },
{
    if data.len() > FX2LP_SIZE {
        return Err(Fx2lpError::SramTooBig);
    }
    device.fx2lp_reset(true);
    let mut copy: Vec<u8> = Vec::new();
    copy.extend_from_slice(data);
    assert(copy@ =~= data@);
    let mut upload = SramUpload { data: copy, addr: 0, stage: UploadStage::Finished };
    upload.next(device);
    Ok(upload)
}

/// The EEPROM takes requests for up to a page that begin at a page.
pub open spec fn eeprom_takes(addr: int, size: int) -> bool {
    &&& 0 <= addr < FX2LP_SIZE
    &&& addr % EEPROM_PAGE_SIZE as int == 0
    &&& size <= EEPROM_PAGE_SIZE
}

/// An address in the EEPROM, high byte first.
pub open spec fn eeprom_address(addr: int) -> Seq<u8> {
    seq![(addr / 256) as u8, (addr % 256) as u8]
}

/// A page is written; the EEPROM needs time for it.
pub open spec fn eeprom_write_acts(addr: int, data: Seq<u8>) -> Seq<Act> {
    seq![
        usb::control_out(usb::CMD_I2C_WRITE, EEPROM_ADDR, eeprom_address(addr) + data),
        Act::Sleep { millis: EEPROM_WRITE_MS },
    ]
}

/// A page is read: the address is written first.
pub open spec fn eeprom_read_acts(addr: int, size: int) -> Seq<Act> {
    seq![
        usb::control_out(usb::CMD_I2C_WRITE, EEPROM_ADDR, eeprom_address(addr)),
        usb::control_in(usb::CMD_I2C_READ, EEPROM_ADDR | 1, size as u16),
    ]
}

/// Checks a request to the EEPROM.
pub fn eeprom_request_valid(addr: usize, size: usize) -> (r: Result<(), Fx2lpError>)
    ensures
        r == (if eeprom_takes(addr as int, size as int) {
            Ok::<(), Fx2lpError>(())
        } else {
            Err(Fx2lpError::EepromRequest { addr, size })
        }),
{
    if addr >= FX2LP_SIZE || addr % EEPROM_PAGE_SIZE != 0 || size > EEPROM_PAGE_SIZE {
        return Err(Fx2lpError::EepromRequest { addr, size });
    }
    Ok(())
}

/// Reads up to a page from the EEPROM.
pub fn eeprom_read(device: &mut UsbDevice, addr: usize, size: usize) -> (r: Result<(), Fx2lpError>)
    ensures
        if eeprom_takes(addr as int, size as int) {
            &&& r == Ok::<(), Fx2lpError>(())
            &&& final(device)@ == old(device)@ + eeprom_read_acts(addr as int, size as int)
        } else {
            &&& r == Err::<(), Fx2lpError>(Fx2lpError::EepromRequest { addr, size })
            &&& final(device)@ == old(device)@
        },
{
    match eeprom_request_valid(addr, size) {
        Err(e) => {
            return Err(e);
        },
        Ok(()) => {},
    }
    let address: [u8; 2] = [(addr / 256) as u8, (addr % 256) as u8];
    assert(address@ =~= eeprom_address(addr as int));
    device.i2c_write(EEPROM_ADDR, &address);
    device.i2c_read(EEPROM_ADDR, size as u16);
    assert(device@ =~= old(device)@ + eeprom_read_acts(addr as int, size as int));
    Ok(())
}

/// Writes up to a page to the EEPROM, and waits until it is stored.
pub fn eeprom_write(device: &mut UsbDevice, addr: usize, data: &[u8]) -> (r: Result<
    (),
    Fx2lpError,
>)
    ensures
        if eeprom_takes(addr as int, data@.len() as int) {
            &&& r == Ok::<(), Fx2lpError>(())
            &&& final(device)@ == old(device)@ + eeprom_write_acts(addr as int, data@)
        } else {
            &&& r == Err::<(), Fx2lpError>(
                Fx2lpError::EepromRequest { addr, size: data@.len() as usize },
            )
            &&& final(device)@ == old(device)@
        },
{
    match eeprom_request_valid(addr, data.len()) {
        Err(e) => {
            return Err(e);
        },
        Ok(()) => {},
    }
    let mut buf: Vec<u8> = Vec::new();
    buf.push((addr / 256) as u8);
    buf.push((addr % 256) as u8);
    buf.extend_from_slice(data);
    assert(buf@ =~= eeprom_address(addr as int) + data@);
    device.i2c_write(EEPROM_ADDR, buf.as_slice());
    device.sleep(EEPROM_WRITE_MS);
    assert(device@ =~= old(device)@ + eeprom_write_acts(addr as int, data@));
    Ok(())
}

/// The bytes of the header, the firmware and the footer, in whole pages.
pub open spec fn padded_size(len: int) -> int {
    (FX2LP_HEADER + len + FX2LP_FOOTER + EEPROM_PAGE_SIZE - 1) / EEPROM_PAGE_SIZE as int
        * EEPROM_PAGE_SIZE
}

/// The header that the boot loader of the microcontroller expects: it loads `len` bytes to
/// address zero, at an I2C clock of 400 kHz.
pub open spec fn eeprom_header(len: int) -> Seq<u8> {
    seq![
        0xc2,
        0xff,
        0xff,
        0xff,
        0xff,
        0xff,
        0xff,
        1,
        (len / 256) as u8,
        (len % 256) as u8,
        0,
        0,
    ]
}

/// The footer: the boot loader ends the reset of the microcontroller.
pub open spec fn eeprom_footer() -> Seq<u8> {
    seq![0x80, 0x01, 0xe6, 0x00, 0x00]
}

/// What the EEPROM holds: unused bytes are `0xff`.
pub open spec fn eeprom_image(data: Seq<u8>) -> Seq<u8> {
    let used = eeprom_header(data.len() as int) + data + eeprom_footer();
    used + Seq::new((padded_size(data.len() as int) - used.len()) as nat, |i: int| 0xffu8)
}

/// An upload to the EEPROM, in mathematical terms.
pub struct Eeprom {
    pub bus: Seq<Act>,
    pub image: Seq<u8>,
    /// The page that is written next, or that is being read back.
    pub addr: int,
    pub stage: UploadStage,
}

/// A page of an image.
pub open spec fn page(image: Seq<u8>, addr: int) -> Seq<u8> {
    image.subrange(addr, addr + EEPROM_PAGE_SIZE)
}

impl Eeprom {
    /// The next page is written and read back.
    pub open spec fn next(self) -> Eeprom {
        if self.addr < self.image.len() {
            Eeprom {
                bus: self.bus + eeprom_write_acts(self.addr, page(self.image, self.addr))
                    + eeprom_read_acts(self.addr, EEPROM_PAGE_SIZE as int),
                stage: UploadStage::Verify,
                ..self
            }
        } else {
            Eeprom { stage: UploadStage::Finished, ..self }
        }
    }

    /// What follows when the page was read back.
    pub open spec fn resume(self, reply: Seq<u8>) -> Eeprom {
        if self.stage != UploadStage::Verify {
            self
        } else if usb::received(reply, EEPROM_PAGE_SIZE as int) == page(self.image, self.addr) {
            Eeprom { addr: self.addr + EEPROM_PAGE_SIZE, ..self }.next()
        } else {
            Eeprom { stage: UploadStage::Failed, ..self }
        }
    }

    /// What holds of an upload at all times.
    pub open spec fn wf(self) -> bool {
        &&& self.image.len() <= FX2LP_SIZE
        &&& self.image.len() % EEPROM_PAGE_SIZE as nat == 0
        &&& 0 <= self.addr <= self.image.len()
        &&& self.addr % EEPROM_PAGE_SIZE as int == 0
        &&& self.stage == UploadStage::Verify ==> self.addr < self.image.len()
    }
}

/// An upload to the EEPROM that the microcontroller boots from.
pub struct EepromUpload {
    image: Vec<u8>,
    addr: usize,
    stage: UploadStage,
}

impl EepromUpload {
    /// What is written.
    pub closed spec fn image(&self) -> Seq<u8> {
        self.image@
    }

    /// The page that is being read back.
    pub closed spec fn addr(&self) -> int {
        self.addr as int
    }

    /// How far the upload is.
    pub closed spec fn stage(&self) -> UploadStage {
        self.stage
    }

    /// The upload, with what is to be done with the device.
    pub open spec fn on(&self, bus: Seq<Act>) -> Eeprom {
        Eeprom { bus, image: self.image(), addr: self.addr(), stage: self.stage() }
    }

    /// What holds of an upload at all times.
    pub open spec fn wf(&self) -> bool {
        self.on(Seq::empty()).wf()
    }

    fn page(&self) -> (r: Vec<u8>)
        requires
            self.wf(),
            self.addr() < self.image().len(),
        ensures
            r@ == page(self.image(), self.addr()),
            r@.len() == EEPROM_PAGE_SIZE,
    {
        let mut r: Vec<u8> = Vec::new();
        let mut i: usize = 0;
        while i < EEPROM_PAGE_SIZE
            invariant
                i <= EEPROM_PAGE_SIZE,
                self.addr + EEPROM_PAGE_SIZE <= self.image@.len() <= FX2LP_SIZE,
                r@ =~= self.image@.subrange(self.addr as int, self.addr + i),
            decreases EEPROM_PAGE_SIZE - i,
        {
            r.push(self.image[self.addr + i]);
            i += 1;
        }
        r
    }

    fn next(&mut self, device: &mut UsbDevice) -> (r: Result<(), Fx2lpError>)
        requires
            old(self).wf(),
        ensures
            r == Ok::<(), Fx2lpError>(()),
            final(self).wf(),
            final(self).on(final(device)@) == old(self).on(old(device)@).next(),
    {
        if self.addr < self.image.len() {
            let page = self.page();
            match eeprom_write(device, self.addr, page.as_slice()) {
                Err(e) => {
                    return Err(e);
                },
                Ok(()) => {},
            }
            match eeprom_read(device, self.addr, EEPROM_PAGE_SIZE) {
                Err(e) => {
                    return Err(e);
                },
                Ok(()) => {},
            }
            self.stage = UploadStage::Verify;
        } else {
            self.stage = UploadStage::Finished;
        }
        Ok(())
    }

    /// Takes the page that was read back; bytes that are missing in it count as zero.
    pub fn resume(&mut self, device: &mut UsbDevice, reply: &[u8]) -> (r: Result<
        SessionStep,
        Fx2lpError,
    >)
        requires
            old(self).wf(),
            reply@.len() <= EEPROM_PAGE_SIZE,
        ensures
            final(self).wf(),
            final(self).on(final(device)@) == old(self).on(old(device)@).resume(reply@),
            r == outcome(final(self).stage(), Fx2lpError::EepromVerification),
    {
        if self.stage == UploadStage::Verify {
            let page = self.page();
            if usb::reply_is(reply, page.as_slice()) {
                self.addr = self.addr + EEPROM_PAGE_SIZE;
                self.stage = UploadStage::Finished;
                match self.next(device) {
                    Err(e) => {
                        return Err(e);
                    },
                    Ok(()) => {},
                }
            } else {
                self.stage = UploadStage::Failed;
            }
        }
        match self.stage {
            UploadStage::Verify => Ok(SessionStep::Wait),
            UploadStage::Finished => Ok(SessionStep::Finished),
            UploadStage::Failed => Err(Fx2lpError::EepromVerification),
        }
    }
}

/// An upload to the EEPROM at its start.
pub open spec fn eeprom_begun(bus: Seq<Act>, data: Seq<u8>) -> Eeprom {
    Eeprom { bus, image: eeprom_image(data), addr: 0, stage: UploadStage::Finished }.next()
}

/// The bytes that the EEPROM is to hold.
pub fn build_image(data: &[u8]) -> (r: Vec<u8>)
    requires
        padded_size(data@.len() as int) <= FX2LP_SIZE,
    ensures
        r@ == eeprom_image(data@),
{
    let n = data.len();
    let padded = (FX2LP_HEADER + n + FX2LP_FOOTER + (EEPROM_PAGE_SIZE - 1)) / EEPROM_PAGE_SIZE
        * EEPROM_PAGE_SIZE;
    let mut r: Vec<u8> = Vec::new();
    r.push(0xc2);  // boot from the EEPROM
    let mut i: usize = 0;
    while i < 6
        invariant
            i <= 6,
            r@ =~= eeprom_header(n as int).take(1 + i),
        decreases 6 - i,
    {
        r.push(0xff);
        i += 1;
    }
    r.push(1);  // I2C clock of 400 kHz
    r.push((n / 256) as u8);
    r.push((n % 256) as u8);
    r.push(0);  // target address
    r.push(0);
    assert(r@ =~= eeprom_header(n as int));
    r.extend_from_slice(data);
    r.push(0x80);
    r.push(0x01);
    r.push(0xe6);
    r.push(0x00);
    r.push(0x00);
    let ghost used = eeprom_header(n as int) + data@ + eeprom_footer();
    assert(r@ =~= used);
    while r.len() < padded
        invariant
            used.len() <= r@.len() <= padded,
            r@ =~= used + Seq::new((r@.len() - used.len()) as nat, |k: int| 0xffu8),
        decreases padded - r@.len(),
    {
        r.push(0xff);
    }
    r
}

/// Begins to write firmware to the EEPROM, in the form that the boot loader takes.
pub fn eeprom_upload(device: &mut UsbDevice, data: &[u8]) -> (r: Result<EepromUpload, Fx2lpError>)
    ensures
        match r {
            Ok(upload) => {
                &&& padded_size(data@.len() as int) <= FX2LP_SIZE
                &&& upload.wf()
                &&& upload.on(final(device)@) == eeprom_begun(old(device)@, data@)
            },
            Err(e) => {
                &&& padded_size(data@.len() as int) > FX2LP_SIZE
                &&& e == Fx2lpError::EepromTooBig
                &&& final(device)@ == old(device)@
            },
        },
{
    if data.len() > FX2LP_SIZE - FX2LP_HEADER - FX2LP_FOOTER {
        return Err(Fx2lpError::EepromTooBig);
    }
    let image = build_image(data);
    let mut upload = EepromUpload { image, addr: 0, stage: UploadStage::Finished };
    match upload.next(device) {
        Err(e) => Err(e),
        Ok(()) => Ok(upload),
    }
}

} // verus!
