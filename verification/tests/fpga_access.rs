//! The FPGA: identification, configuration and flash memory, on a simulated device.

use usb_sniffer::flash::{erase_flash, program_flash, FlashSession};
use usb_sniffer::fpga::{disable, enable, program_sram, read_traceid, traceid, FpgaError};
use usb_sniffer::jed::{bitstream_valid, find_bytes, parse_jed_file, JedError};
use usb_sniffer::jtag::JtagState;
use usb_sniffer::usb::{Action, SessionStep, UsbDevice};

#[derive(Clone, Copy, PartialEq, Debug)]
enum Tap {
    Reset,
    Idle,
    SelectDr,
    CaptureDr,
    ShiftDr,
    Exit1Dr,
    PauseDr,
    Exit2Dr,
    UpdateDr,
    SelectIr,
    CaptureIr,
    ShiftIr,
    Exit1Ir,
    PauseIr,
    Exit2Ir,
    UpdateIr,
}

fn next_state(state: Tap, tms: bool) -> Tap {
    let (low, high) = match state {
        Tap::Reset => (Tap::Idle, Tap::Reset),
        Tap::Idle => (Tap::Idle, Tap::SelectDr),
        Tap::SelectDr => (Tap::CaptureDr, Tap::SelectIr),
        Tap::CaptureDr => (Tap::ShiftDr, Tap::Exit1Dr),
        Tap::ShiftDr => (Tap::ShiftDr, Tap::Exit1Dr),
        Tap::Exit1Dr => (Tap::PauseDr, Tap::UpdateDr),
        Tap::PauseDr => (Tap::PauseDr, Tap::Exit2Dr),
        Tap::Exit2Dr => (Tap::ShiftDr, Tap::UpdateDr),
        Tap::UpdateDr => (Tap::Idle, Tap::SelectDr),
        Tap::SelectIr => (Tap::CaptureIr, Tap::Reset),
        Tap::CaptureIr => (Tap::ShiftIr, Tap::Exit1Ir),
        Tap::ShiftIr => (Tap::ShiftIr, Tap::Exit1Ir),
        Tap::Exit1Ir => (Tap::PauseIr, Tap::UpdateIr),
        Tap::PauseIr => (Tap::PauseIr, Tap::Exit2Ir),
        Tap::Exit2Ir => (Tap::ShiftIr, Tap::UpdateIr),
        Tap::UpdateIr => (Tap::Idle, Tap::SelectDr),
    };
    if tms {
        high
    } else {
        low
    }
}

/// A device that behaves like the one on the board.
struct Fpga {
    enabled: bool,
    state: Tap,
    instruction: u8,
    ir_bits: Vec<u8>,
    /// What was shifted in since the last capture.
    dr_in: Vec<u8>,
    /// What is shifted out.
    dr_out: Vec<u8>,
    samples: Vec<u8>,
    idcode: u32,
    traceid: u64,
    busy_polls: usize,
    status: u32,
    rows: Vec<Vec<u8>>,
    address: usize,
    feature: Vec<u8>,
    feabits: Vec<u8>,
    erased: Vec<u8>,
    burst: Vec<u8>,
    refreshed: bool,
    printed: String,
    clocks: usize,
}

fn to_bits(bytes: &[u8]) -> Vec<u8> {
    bytes.iter().flat_map(|b| (0..8).map(move |i| (b >> i) & 1)).collect()
}

fn to_bytes(bits: &[u8]) -> Vec<u8> {
    bits.chunks(8).map(|c| c.iter().enumerate().map(|(i, b)| b << i).sum()).collect()
}

impl Fpga {
    fn new() -> Fpga {
        Fpga {
            enabled: false,
            state: Tap::PauseIr,
            instruction: 0,
            ir_bits: Vec::new(),
            dr_in: Vec::new(),
            dr_out: Vec::new(),
            samples: Vec::new(),
            idcode: 0x012bb043,
            traceid: 0x1122_3344_5566_7788,
            busy_polls: 0,
            status: 0,
            rows: Vec::new(),
            address: 0,
            feature: vec![0; 8],
            feabits: vec![0; 2],
            erased: Vec::new(),
            burst: Vec::new(),
            refreshed: false,
            printed: String::new(),
            clocks: 0,
        }
    }

    fn capture(&mut self) {
        self.dr_in.clear();
        self.dr_out = match self.instruction {
            0xe0 => to_bits(&self.idcode.to_le_bytes()),
            0x19 => to_bits(&self.traceid.to_le_bytes()),
            0xf0 => {
                let busy = self.busy_polls > 0;
                self.busy_polls = self.busy_polls.saturating_sub(1);
                vec![busy as u8]
            }
            0x3c => to_bits(&self.status.to_le_bytes()),
            0x73 => {
                self.address += 1;
                to_bits(&self.rows[self.address - 1])
            }
            0xe7 => to_bits(&self.feature),
            0xfb => to_bits(&self.feabits),
            _ => Vec::new(),
        };
    }

    fn update(&mut self) {
        let data = to_bytes(&self.dr_in);
        match self.instruction {
            0x0e => {
                self.erased.push(data[0]);
                if data[0] == 0x0e {
                    self.rows.clear();
                    self.feature = vec![0; 8];
                    self.feabits = vec![0; 2];
                }
            }
            0x70 => {
                assert_eq!(data.len(), 16);
                assert_eq!(self.address, self.rows.len());
                self.rows.push(data);
                self.address += 1;
            }
            0xe4 => self.feature = data,
            0xf8 => self.feabits = data,
            0x7a => self.burst = self.dr_in.clone(),
            _ => {}
        }
    }

    fn clock(&mut self, tdi: u8, tms: bool) {
        assert!(self.enabled);
        self.clocks += 1;
        let mut sample = 0;
        match self.state {
            Tap::CaptureDr => self.capture(),
            Tap::ShiftDr => {
                if !self.dr_out.is_empty() {
                    sample = self.dr_out.remove(0);
                }
                self.dr_in.push(tdi);
            }
            Tap::UpdateDr => self.update(),
            Tap::CaptureIr => self.ir_bits.clear(),
            Tap::ShiftIr => self.ir_bits.push(tdi),
            Tap::UpdateIr if self.ir_bits.len() == 8 => {
                self.instruction = to_bytes(&self.ir_bits)[0];
                match self.instruction {
                    0x46 => self.address = 0,
                    0x79 => self.refreshed = true,
                    _ => {}
                }
            }
            _ => {}
        }
        self.samples.push(sample);
        self.state = next_state(self.state, tms);
    }

    /// Performs what is to be done. The reply to the last request, if there is one.
    fn perform(&mut self, device: &mut UsbDevice) -> Option<Vec<u8>> {
        let mut reply = None;
        for action in device.take() {
            assert!(reply.is_none(), "a reply must come last");
            match action {
                Action::ControlOut { request: 0xc0, value, index: 0, data } => {
                    assert!(data.is_empty());
                    self.enabled = value == 1;
                }
                Action::ControlOut { request: 0xc1, value, index: 0, data } => {
                    let count = value as usize;
                    assert!(0 < count && count <= 255);
                    assert_eq!(data.len(), (count + 3) / 4);
                    self.samples.clear();
                    for i in 0..count {
                        let c = (data[i / 4] >> (i % 4 * 2)) & 3;
                        self.clock(c >> 1, c & 1 == 1);
                    }
                }
                Action::ControlIn { request: 0xc2, value: 0, index: 0, length } => {
                    assert_eq!(length as usize, (self.samples.len() + 3) / 4);
                    let packed = self
                        .samples
                        .chunks(4)
                        .map(|c| c.iter().enumerate().map(|(i, b)| b << i).sum::<u8>() | 0xa0)
                        .collect();
                    reply = Some(packed);
                }
                Action::Print { text } => self.printed.push_str(text),
                _ => panic!("unexpected action"),
            }
        }
        reply
    }

    fn session(
        &mut self,
        device: &mut UsbDevice,
        session: &mut FlashSession,
    ) -> Result<(), FpgaError> {
        loop {
            let reply = self.perform(device).unwrap();
            assert!(reply.len() <= session.reply_size());
            match session.resume(device, &reply) {
                Ok(SessionStep::Wait) => {}
                Ok(SessionStep::Finished) => {
                    assert!(self.perform(device).is_none());
                    return Ok(());
                }
                Err(e) => return Err(e),
            }
        }
    }

    fn enable(&mut self, device: &mut UsbDevice) -> Result<(), FpgaError> {
        let session = enable(device);
        let reply = self.perform(device).unwrap();
        let r = session.resume(device, &reply);
        assert!(self.perform(device).is_none());
        r
    }
}

/// A JED file with `rows` rows.
fn jed_file(rows: usize, feature: u64, feabits: u16) -> (Vec<u8>, Vec<Vec<u8>>) {
    let mut text = String::from("NOTE Device: LCMXO2-2000HC*\n");
    while text.len() < 1024 {
        text.push_str("NOTE some more words*\n");
    }
    text.push_str("L000000\n");
    let mut expected = Vec::new();
    for row in 0..rows {
        let bytes: Vec<u8> = (0..16).map(|i| (row * 31 + i * 7 + 1) as u8).collect();
        for b in to_bits(&bytes) {
            text.push(if b == 1 { '1' } else { '0' });
        }
        text.push_str("\r\n");
        expected.push(bytes);
    }
    text.push_str("*\nNOTE FEATURE_ROW*\nE");
    for i in 0..64 {
        text.push(if (feature >> i) & 1 == 1 { '1' } else { '0' });
    }
    text.push('\n');
    for i in 0..16 {
        text.push(if (feabits >> i) & 1 == 1 { '1' } else { '0' });
    }
    text.push_str("*\n");
    (text.into_bytes(), expected)
}

#[test]
fn the_device_is_identified() {
    let mut device = UsbDevice::new();
    let mut fpga = Fpga::new();
    assert_eq!(fpga.enable(&mut device), Ok(()));
    assert_eq!(fpga.state, Tap::Idle);
    assert!(fpga.enabled);
    disable(&mut device);
    assert!(fpga.perform(&mut device).is_none());
    assert!(!fpga.enabled);
    assert_eq!(fpga.state, Tap::Idle);
}

#[test]
fn another_device_is_refused() {
    let mut device = UsbDevice::new();
    let mut fpga = Fpga::new();
    fpga.idcode = 0x012ba043;
    let e = fpga.enable(&mut device).unwrap_err();
    assert_eq!(e, FpgaError::Idcode { idcode: 0x012ba043 });
    assert_eq!(e.message(), "incorrect FPGA IDCODE (0x012ba043)");
}

#[test]
fn a_short_reply_counts_as_zeros() {
    let mut device = UsbDevice::new();
    let session = enable(&mut device);
    device.take();
    let e = session.resume(&mut device, &[0x03, 0x04]).unwrap_err();
    assert_eq!(e, FpgaError::Idcode { idcode: 0x43 });
}

#[test]
fn the_trace_number_is_read() {
    let mut device = UsbDevice::new();
    let mut fpga = Fpga::new();
    fpga.enable(&mut device).unwrap();
    read_traceid(&mut device);
    let reply = fpga.perform(&mut device).unwrap();
    assert_eq!(traceid(&reply), 0x1122_3344_5566_7788);
    // What the reading left to be done is made up for by the reset that follows.
    disable(&mut device);
    fpga.perform(&mut device);
    assert_eq!(fpga.state, Tap::Idle);
}

#[test]
fn the_reset_clocks_work_from_any_state() {
    let states = [
        Tap::Reset,
        Tap::Idle,
        Tap::SelectDr,
        Tap::CaptureDr,
        Tap::ShiftDr,
        Tap::Exit1Dr,
        Tap::PauseDr,
        Tap::Exit2Dr,
        Tap::UpdateDr,
        Tap::SelectIr,
        Tap::CaptureIr,
        Tap::ShiftIr,
        Tap::Exit1Ir,
        Tap::PauseIr,
        Tap::Exit2Ir,
    ];
    for state in states {
        let mut device = UsbDevice::new();
        let mut fpga = Fpga::new();
        fpga.enabled = true;
        fpga.state = state;
        let mut jtag = JtagState::new();
        jtag.reset(&mut device);
        jtag.sync(&mut device);
        fpga.perform(&mut device);
        assert_eq!(fpga.state, Tap::Idle);
        assert_eq!(fpga.clocks, 17);
    }
}

#[test]
fn clocks_are_sent_in_requests_of_255() {
    let mut device = UsbDevice::new();
    let mut jtag = JtagState::new();
    jtag.run(&mut device, 600);
    let sizes: Vec<u16> = device
        .take()
        .iter()
        .map(|a| match a {
            Action::ControlOut { request: 0xc1, value, .. } => *value,
            _ => panic!("unexpected action"),
        })
        .collect();
    assert_eq!(sizes, vec![255, 255]);
    jtag.sync(&mut device);
    match &device.take()[..] {
        [Action::ControlOut { request: 0xc1, value: 90, index: 0, data }] => {
            assert_eq!(data.len(), 23);
        }
        _ => panic!("unexpected actions"),
    }
    jtag.sync(&mut device);
    assert!(device.take().is_empty());
}

#[test]
fn where_clocks_are_cut_does_not_matter() {
    let requests = |cuts: &[usize]| {
        let mut device = UsbDevice::new();
        let mut jtag = JtagState::new();
        for &n in cuts {
            jtag.run(&mut device, n);
        }
        jtag.sync(&mut device);
        let sizes: Vec<u16> = device
            .take()
            .iter()
            .map(|a| match a {
                Action::ControlOut { request: 0xc1, value, .. } => *value,
                _ => panic!("unexpected action"),
            })
            .collect();
        sizes
    };
    assert_eq!(requests(&[300]), vec![255, 45]);
    assert_eq!(requests(&[100, 200]), vec![255, 45]);
    assert_eq!(requests(&[255, 45]), vec![255, 45]);
}

#[test]
fn an_instruction_takes_these_clocks() {
    let mut device = UsbDevice::new();
    let mut jtag = JtagState::new();
    jtag.write_ir(&mut device, 0xe0);
    jtag.sync(&mut device);
    match &device.take()[..] {
        [Action::ControlOut { request: 0xc1, value: 14, index: 0, data }] => {
            // 1 1 0 0, then 0 0 0 0, 0 2 2 3, then 1 0.
            assert_eq!(data[..], [0x05, 0x00, 0xe8, 0x01]);
        }
        _ => panic!("unexpected actions"),
    }
}

#[test]
fn a_bitstream_is_loaded() {
    let mut bit = b"LSCC LCMXO2-2000HC".to_vec();
    bit.resize(1500, 0x5c);
    bit.push(0x81);
    let mut device = UsbDevice::new();
    let mut fpga = Fpga::new();
    fpga.enable(&mut device).unwrap();
    assert_eq!(program_sram(&mut device, &bit), Ok(()));
    assert!(fpga.perform(&mut device).is_none());
    assert_eq!(fpga.erased, vec![0x01]);
    assert_eq!(fpga.instruction, 0xff);
    assert_eq!(fpga.state, Tap::Idle);
    let expected: Vec<u8> =
        bit.iter().flat_map(|b| (0..8).rev().map(move |i| (b >> i) & 1)).collect();
    assert_eq!(fpga.burst, expected);
}

#[test]
fn a_bitstream_for_another_device_is_refused() {
    let mut bit = b"LCMXO2-1200HC".to_vec();
    bit.resize(2000, 0);
    let mut device = UsbDevice::new();
    let e = program_sram(&mut device, &bit).unwrap_err();
    assert_eq!(e, FpgaError::NoSignature);
    assert_eq!(e.message(), "malformed BIT file: device signature not found");
    assert!(device.take().is_empty());
}

#[test]
fn the_flash_memory_is_programmed() {
    let (file, rows) = jed_file(300, 0x0123_4567_89ab_cdef, 0xbeef);
    let mut device = UsbDevice::new();
    let mut fpga = Fpga::new();
    fpga.rows = vec![vec![0; 16]; 3];
    fpga.enable(&mut device).unwrap();
    fpga.busy_polls = 3;
    let mut session = program_flash(&mut device, &file).unwrap();
    assert_eq!(fpga.session(&mut device, &mut session), Ok(()));
    assert_eq!(fpga.erased, vec![0x01, 0x0e]);
    assert_eq!(fpga.rows, rows);
    assert_eq!(fpga.feature, 0x0123_4567_89ab_cdefu64.to_le_bytes());
    assert_eq!(fpga.feabits, 0xbeefu16.to_le_bytes());
    assert!(fpga.refreshed);
    assert_eq!(fpga.state, Tap::Idle);
    assert_eq!(
        fpga.printed,
        "Erasing flash\nProgramming configuration data \n..\nVerifying configuration data\n\
         Programming and verifying Feature Row\nProgramming and verifying FEABITS\n\
         Exiting programming mode\n"
    );
}

#[test]
fn the_flash_memory_is_erased() {
    let mut device = UsbDevice::new();
    let mut fpga = Fpga::new();
    fpga.rows = vec![vec![1; 16]; 5];
    fpga.enable(&mut device).unwrap();
    let mut session = erase_flash(&mut device);
    assert_eq!(fpga.session(&mut device, &mut session), Ok(()));
    assert!(fpga.rows.is_empty());
    assert_eq!(fpga.erased, vec![0x01, 0x0e]);
    assert_eq!(fpga.printed, "");
}

#[test]
fn a_device_in_trouble_is_noticed() {
    let cases = [
        (1 << 12, FpgaError::Busy, "poll_busy_flag: busy"),
        (1 << 13, FpgaError::Fail, "poll_busy_flag: fail"),
        (3 << 12, FpgaError::Busy, "poll_busy_flag: busy"),
    ];
    for (status, error, message) in cases {
        let mut device = UsbDevice::new();
        let mut fpga = Fpga::new();
        fpga.enable(&mut device).unwrap();
        fpga.status = status;
        let mut session = erase_flash(&mut device);
        let e = fpga.session(&mut device, &mut session).unwrap_err();
        assert_eq!(e, error);
        assert_eq!(e.message(), message);
    }
}

/// Programs a file while every reply of a size is falsified.
fn program_with_wrong_reply(size: usize) -> FpgaError {
    let (file, _) = jed_file(2, 5, 6);
    let mut device = UsbDevice::new();
    let mut fpga = Fpga::new();
    fpga.enable(&mut device).unwrap();
    let mut session = program_flash(&mut device, &file).unwrap();
    loop {
        let mut reply = fpga.perform(&mut device).unwrap();
        if reply.len() == size {
            reply[1] ^= 1;
        }
        match session.resume(&mut device, &reply) {
            Ok(SessionStep::Wait) => {}
            Ok(SessionStep::Finished) => panic!("must not finish"),
            Err(e) => return e,
        }
    }
}

#[test]
fn what_is_read_back_otherwise_is_noticed() {
    let e = program_with_wrong_reply(32);
    assert_eq!(e, FpgaError::Configuration);
    assert_eq!(e.message(), "configuration verification failed");
    let e = program_with_wrong_reply(16);
    assert_eq!(e, FpgaError::FeatureRow);
    assert_eq!(e.message(), "Feature Row verification failed");
    let e = program_with_wrong_reply(4);
    assert_eq!(e, FpgaError::Feabits);
    assert_eq!(e.message(), "FEABITS verification failed");
}

#[test]
fn a_session_that_ended_does_nothing_more() {
    let mut device = UsbDevice::new();
    let mut fpga = Fpga::new();
    fpga.enable(&mut device).unwrap();
    let mut session = erase_flash(&mut device);
    fpga.session(&mut device, &mut session).unwrap();
    assert_eq!(session.reply_size(), 0);
    assert_eq!(session.resume(&mut device, &[]), Ok(SessionStep::Finished));
    assert!(device.take().is_empty());
}

#[test]
fn bytes_are_found_where_they_first_stand() {
    assert_eq!(find_bytes(b"abcabc", b"abc"), Some(0));
    assert_eq!(find_bytes(b"xxabcabc", b"abc"), Some(2));
    assert_eq!(find_bytes(b"xxab", b"abc"), None);
    assert_eq!(find_bytes(b"", b"a"), None);
    assert_eq!(find_bytes(b"aab", b"ab"), Some(1));
}

#[test]
fn the_signature_must_stand_early() {
    let mut data = vec![0; 1024 - 13];
    data.extend_from_slice(b"LCMXO2-2000HC");
    assert!(bitstream_valid(&data));
    assert!(!bitstream_valid(&data[1..]));
    data.insert(0, 0);
    assert!(!bitstream_valid(&data));
}

#[test]
fn a_jed_file_is_read() {
    let (file, rows) = jed_file(3, 0x8000_0000_0000_0001, 0x8001);
    let jed = parse_jed_file(&file).ok().unwrap();
    assert_eq!(jed.config, rows.concat());
    assert_eq!(jed.feature, 0x8000_0000_0000_0001u64.to_le_bytes());
    assert_eq!(jed.feabits, 0x8001u16.to_le_bytes());
}

#[test]
fn other_characters_in_a_field_do_not_count() {
    let (file, rows) = jed_file(1, 1, 2);
    let text = String::from_utf8(file).unwrap().replace("\r\n", " \t2x\r\n").replace("01", "0 1");
    let jed = parse_jed_file(text.as_bytes()).ok().unwrap();
    assert_eq!(jed.config, rows.concat());
    assert_eq!(jed.feabits, 2u16.to_le_bytes());
}

fn jed_error(file: &[u8]) -> JedError {
    match parse_jed_file(file) {
        Ok(_) => panic!("must be refused"),
        Err(e) => e,
    }
}

#[test]
fn malformed_jed_files_are_refused() {
    let (file, _) = jed_file(2, 3, 4);
    let text = String::from_utf8(file).unwrap();
    let change = |from: &str, to: &str| jed_error(text.replacen(from, to, 1).as_bytes());

    let e = change("LCMXO2-2000HC", "LCMXO2-4000HC");
    assert_eq!(e, JedError::NoSignature);
    assert_eq!(e.message(), "malformed JED file: device signature not found");

    let e = change("L000000", "L000001");
    assert_eq!(e, JedError::NoConfiguration);
    assert_eq!(e.message(), "malformed JED file: no 'L000000' found");

    let e = change("L000000\n", "L000000\n0");
    assert_eq!(e, JedError::ConfigurationSize);
    assert_eq!(
        e.message(),
        "malformed JED file: size of configuration data must be a multiple of 128"
    );

    let e = change("FEATURE_ROW*", "FEATURES_ROW*");
    assert_eq!(e, JedError::NoFeatureRow);
    assert_eq!(e.message(), "malformed JED file: no feature row found");

    let e = change("FEATURE_ROW*\nE", "FEATURE_ROW*\nE0");
    assert_eq!(e, JedError::FeatureRowTooBig);
    assert_eq!(e.message(), "malformed JED file: feature row data is too big");

    let e = change("FEATURE_ROW*\nE1", "FEATURE_ROW*\nE");
    assert_eq!(e, JedError::FeatureRowSize);
    assert_eq!(e.message(), "malformed JED file: invalid feature row size");

    let e = jed_error(text.trim_end().trim_end_matches('*').as_bytes());
    assert_eq!(e, JedError::NoTerminator);
    assert_eq!(e.message(), "malformed JED file: no field terminator found");

    let start = text.find("L000000").unwrap();
    let end = start + text[start..].find('*').unwrap();
    assert_eq!(jed_error(text[..end].as_bytes()), JedError::NoTerminator);

    let mut device = UsbDevice::new();
    match program_flash(&mut device, b"") {
        Ok(_) => panic!("must be refused"),
        Err(e) => {
            assert_eq!(e, FpgaError::Jed { error: JedError::NoSignature });
            assert_eq!(e.message(), "malformed JED file: device signature not found");
        }
    }
    assert!(device.take().is_empty());
}

#[test]
fn too_much_configuration_is_refused() {
    let (file, _) = jed_file(0, 0, 0);
    let text = String::from_utf8(file).unwrap();
    let full = "1".repeat(512 * 1024 * 8);
    let with = |bits: &str| text.replacen("L000000\n", &format!("L000000\n{}", bits), 1);
    // The most that there may be.
    let jed = parse_jed_file(with(&full).as_bytes()).ok().unwrap();
    assert_eq!(jed.config, vec![0xff; 512 * 1024]);
    // One bit more, and one row more.
    for more in [1, 128] {
        let e = jed_error(with(&(full.clone() + &"0".repeat(more))).as_bytes());
        assert_eq!(e, JedError::ConfigurationTooBig);
        assert_eq!(e.message(), "malformed JED file: configuration data is too big");
    }
}

#[test]
fn the_smallest_form_of_the_largest_file_is_read() {
    let mut file = b"LCMXO2-2000HC L000000 ".to_vec();
    file.extend(vec![b'0'; 4_194_304]);
    file.extend_from_slice(b"*NOTE FEATURE_ROW*");
    file.extend([b'0'; 80]);
    file.push(b'*');
    let jed = parse_jed_file(&file).ok().unwrap();
    assert_eq!(jed.config, vec![0; 524_288]);
    assert_eq!(jed.feature, vec![0; 8]);
    assert_eq!(jed.feabits, vec![0; 2]);
}
