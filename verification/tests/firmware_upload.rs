//! Firmware of the microcontroller, on a simulated device.

use usb_sniffer::fx2lp::{
    build_image, eeprom_read, eeprom_request_valid, eeprom_upload, eeprom_write, sram_upload,
    Fx2lpError,
};
use usb_sniffer::usb::{Action, SessionStep, UsbDevice};

/// A microcontroller with its memory and its EEPROM.
struct Board {
    in_reset: bool,
    released: usize,
    memory: Vec<u8>,
    eeprom: Vec<u8>,
    eeprom_addr: usize,
    slept: u64,
    broken: Option<usize>,
}

impl Board {
    fn new() -> Board {
        Board {
            in_reset: false,
            released: 0,
            memory: vec![0xee; 16384],
            eeprom: vec![0xee; 16384],
            eeprom_addr: 0,
            slept: 0,
            broken: None,
        }
    }

    fn perform(&mut self, device: &mut UsbDevice) -> Option<Vec<u8>> {
        let mut reply = None;
        for action in device.take() {
            match action {
                Action::ControlOut { request: 0xa0, value: 0xe600, index: 0, data } => {
                    assert_eq!(data.len(), 1);
                    self.in_reset = data[0] == 1;
                    if !self.in_reset {
                        self.released += 1;
                    }
                }
                Action::ControlOut { request: 0xa0, value, index: 0, data } => {
                    assert!(self.in_reset);
                    assert!(data.len() <= 64);
                    let at = value as usize;
                    self.memory[at..at + data.len()].copy_from_slice(&data);
                    if let Some(broken) = self.broken {
                        self.memory[broken] = !self.memory[broken];
                    }
                }
                Action::ControlIn { request: 0xa0, value, index: 0, length } => {
                    let at = value as usize;
                    reply = Some(self.memory[at..at + length as usize].to_vec());
                }
                Action::ControlOut { request: 0xb1, value: 0xa2, index: 0, data } => {
                    self.eeprom_addr = data[0] as usize * 256 + data[1] as usize;
                    let bytes = &data[2..];
                    assert!(bytes.len() <= 32);
                    let at = self.eeprom_addr;
                    self.eeprom[at..at + bytes.len()].copy_from_slice(bytes);
                    if let Some(broken) = self.broken {
                        self.eeprom[broken] = 0x55;
                    }
                }
                Action::ControlIn { request: 0xb0, value: 0xa3, index: 0, length } => {
                    let at = self.eeprom_addr;
                    reply = Some(self.eeprom[at..at + length as usize].to_vec());
                }
                Action::Sleep { millis } => self.slept += millis,
                _ => panic!("unexpected action"),
            }
        }
        reply
    }

    fn upload_sram(&mut self, data: &[u8]) -> Result<(), Fx2lpError> {
        let mut device = UsbDevice::new();
        let mut upload = sram_upload(&mut device, data)?;
        while !upload.is_finished() {
            let reply = self.perform(&mut device).unwrap();
            assert!(reply.len() <= upload.reply_size());
            upload.resume(&mut device, &reply)?;
        }
        assert!(self.perform(&mut device).is_none());
        Ok(())
    }

    fn upload_eeprom(&mut self, data: &[u8]) -> Result<(), Fx2lpError> {
        let mut device = UsbDevice::new();
        let mut upload = eeprom_upload(&mut device, data)?;
        loop {
            let reply = self.perform(&mut device).unwrap();
            match upload.resume(&mut device, &reply)? {
                SessionStep::Wait => {}
                SessionStep::Finished => return Ok(()),
            }
        }
    }
}

fn firmware(len: usize) -> Vec<u8> {
    (0..len).map(|i| (i * 13 + i / 256) as u8).collect()
}

#[test]
fn firmware_is_loaded_into_the_memory() {
    for len in [0, 1, 63, 64, 65, 1000, 16384] {
        let data = firmware(len);
        let mut board = Board::new();
        assert_eq!(board.upload_sram(&data), Ok(()));
        assert_eq!(board.memory[..len], data[..]);
        assert!(board.memory[len..].iter().all(|&b| b == 0xee));
        assert_eq!(board.released, 1);
        assert!(!board.in_reset);
    }
}

#[test]
fn too_much_firmware_for_the_memory_is_refused() {
    let mut board = Board::new();
    let e = board.upload_sram(&firmware(16385)).unwrap_err();
    assert_eq!(e, Fx2lpError::SramTooBig);
    assert_eq!(e.message(), "sram_upload: file is too big");
    assert!(!board.in_reset);
}

#[test]
fn a_memory_that_forgets_is_noticed() {
    let mut board = Board::new();
    board.broken = Some(150);
    let e = board.upload_sram(&firmware(500)).unwrap_err();
    assert_eq!(e, Fx2lpError::SramVerification);
    assert_eq!(e.message(), "sram_upload: verification failed");
    // The microcontroller is not started.
    assert!(board.in_reset);
    assert_eq!(board.released, 0);
}

#[test]
fn a_short_reply_is_no_verification() {
    let mut device = UsbDevice::new();
    let mut upload = sram_upload(&mut device, &[1, 2, 3]).ok().unwrap();
    assert_eq!(upload.reply_size(), 3);
    assert_eq!(upload.resume(&mut device, &[1, 2]), Err(Fx2lpError::SramVerification));
    // Zeros are as good as bytes that are missing.
    let mut device = UsbDevice::new();
    let mut upload = sram_upload(&mut device, &[1, 2, 0]).ok().unwrap();
    assert_eq!(upload.resume(&mut device, &[1, 2]), Ok(SessionStep::Finished));
}

#[test]
fn the_image_is_what_the_boot_loader_takes() {
    let data = firmware(300);
    let image = build_image(&data);
    assert_eq!(image.len(), 320);
    assert_eq!(image[..12], [0xc2, 0xff, 0xff, 0xff, 0xff, 0xff, 0xff, 1, 1, 44, 0, 0]);
    assert_eq!(image[12..312], data[..]);
    assert_eq!(image[312..317], [0x80, 0x01, 0xe6, 0x00, 0x00]);
    assert_eq!(image[317..], [0xff, 0xff, 0xff]);
}

#[test]
fn firmware_is_written_to_the_eeprom() {
    for len in [0, 15, 16, 300, 16367] {
        let data = firmware(len);
        let image = build_image(&data);
        let mut board = Board::new();
        assert_eq!(board.upload_eeprom(&data), Ok(()));
        assert_eq!(board.eeprom[..image.len()], image[..]);
        assert!(board.eeprom[image.len()..].iter().all(|&b| b == 0xee));
        assert_eq!(board.slept, 7 * (image.len() / 32) as u64);
    }
}

#[test]
fn too_much_firmware_for_the_eeprom_is_refused() {
    let mut board = Board::new();
    let e = board.upload_eeprom(&firmware(16368)).unwrap_err();
    assert_eq!(e, Fx2lpError::EepromTooBig);
    assert_eq!(e.message(), "eeprom_upload: file is too big");
}

#[test]
fn an_eeprom_that_forgets_is_noticed() {
    let mut board = Board::new();
    board.broken = Some(100);
    let e = board.upload_eeprom(&firmware(500)).unwrap_err();
    assert_eq!(e, Fx2lpError::EepromVerification);
    assert_eq!(e.message(), "eeprom_upload: verification failed");
}

#[test]
fn requests_to_the_eeprom_are_checked() {
    assert_eq!(eeprom_request_valid(0, 32), Ok(()));
    assert_eq!(eeprom_request_valid(16352, 0), Ok(()));
    let e = eeprom_request_valid(16384, 1).unwrap_err();
    assert_eq!(e.message(), "eeprom: invalid request (addr=0x4000, size=1)");
    let e = eeprom_request_valid(33, 1).unwrap_err();
    assert_eq!(e, Fx2lpError::EepromRequest { addr: 33, size: 1 });
    assert_eq!(e.message(), "eeprom: invalid request (addr=0x21, size=1)");
    let e = eeprom_request_valid(32, 33).unwrap_err();
    assert_eq!(e.message(), "eeprom: invalid request (addr=0x20, size=33)");

    let mut device = UsbDevice::new();
    assert!(eeprom_read(&mut device, 1, 4).is_err());
    assert!(eeprom_write(&mut device, 1, &[0]).is_err());
    assert!(device.take().is_empty());
    assert!(eeprom_write(&mut device, 0x1fe0, &[1, 2]).is_ok());
    assert!(eeprom_read(&mut device, 0x1fe0, 2).is_ok());
    match &device.take()[..] {
        [Action::ControlOut { request: 0xb1, value: 0xa2, index: 0, data: written }, Action::Sleep { millis: 7 }, Action::ControlOut { request: 0xb1, value: 0xa2, index: 0, data: address }, Action::ControlIn { request: 0xb0, value: 0xa3, index: 0, length: 2 }] =>
        {
            assert_eq!(written[..], [0x1f, 0xe0, 1, 2]);
            assert_eq!(address[..], [0x1f, 0xe0]);
        }
        _ => panic!("unexpected actions"),
    }
}
