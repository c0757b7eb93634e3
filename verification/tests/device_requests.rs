//! Requests to the device, bulk transfers and the speed test.

use usb_sniffer::usb::{
    bytemuck_cast_slice, rand16, Action, DeviceId, SpeedTestState, TransferStatus, TransferStep,
    UsbDevice, DATA_ENDPOINT, DATA_ENDPOINT_SIZE, MAX_COUNT_IN_JTAG_REQUEST, TRANSFER_SIZE,
    USB_EP0_SIZE,
};

#[test]
fn the_first_matching_device_is_opened() {
    let a = DeviceId { vid: 0x04b4, pid: 0x8613 };
    let b = DeviceId { vid: 0x6666, pid: 0x6620 };
    let c = DeviceId { vid: 0x6666, pid: 0x8613 };
    let devices = [c, a, b, b];
    assert_eq!(UsbDevice::open(&devices, 0x6666, 0x6620), Some(2));
    assert_eq!(UsbDevice::open(&devices, 0x04b4, 0x8613), Some(1));
    assert_eq!(UsbDevice::open(&devices, 0x04b4, 0x6620), None);
    assert_eq!(UsbDevice::open(&[], 0x6666, 0x6620), None);
}

#[test]
fn constants_of_the_hardware() {
    assert_eq!(MAX_COUNT_IN_JTAG_REQUEST, 255);
    assert_eq!(DATA_ENDPOINT, 0x82);
    assert_eq!(DATA_ENDPOINT_SIZE, 512);
    assert_eq!(TRANSFER_SIZE, 512 * 2000);
    assert_eq!(USB_EP0_SIZE, 64);
}

#[test]
fn control_bits_are_set_one_by_one() {
    let mut device = UsbDevice::new();
    device.ctrl(3, true);
    device.ctrl(3, false);
    match &device.take()[..] {
        [Action::ControlOut { request: 0xd0, value: 0x13, index: 0, .. }, Action::ControlOut { request: 0xd0, value: 0x03, index: 0, .. }] =>
            {}
        _ => panic!("unexpected actions"),
    }
}

#[test]
fn clocks_are_packed_four_to_a_byte() {
    let mut device = UsbDevice::new();
    device.jtag_request(&[3, 2, 1, 0, 1, 3], 5);
    match &device.take()[..] {
        [Action::ControlOut { request: 0xc1, value: 5, index: 0, data }] => {
            assert_eq!(data[..], [0b00_01_10_11, 0b01]);
        }
        _ => panic!("unexpected actions"),
    }
}

#[test]
fn samples_are_unpacked_eight_to_a_byte() {
    let mut device = UsbDevice::new();
    device.jtag_response(9);
    match &device.take()[..] {
        [Action::ControlIn { request: 0xc2, value: 0, index: 0, length: 3 }] => {}
        _ => panic!("unexpected actions"),
    }
    assert_eq!(UsbDevice::jtag_samples(&[0xf5, 0xfa, 0x31], 9), vec![0xa5, 0x01]);
    assert_eq!(UsbDevice::jtag_samples(&[0x05], 9), vec![0x05, 0x00]);
    assert_eq!(UsbDevice::jtag_samples(&[], 0), Vec::<u8>::new());
}

#[test]
fn bulk_transfers_are_renewed() {
    let (completed, cancelled, failed) =
        (TransferStatus::Completed, TransferStatus::Cancelled, TransferStatus::Failed);
    assert_eq!(UsbDevice::data_transfer_loop(completed, 512), TransferStep::Deliver);
    assert_eq!(UsbDevice::data_transfer_loop(completed, 0), TransferStep::Resubmit);
    assert_eq!(UsbDevice::data_transfer_loop(cancelled, 1), TransferStep::Deliver);
    assert_eq!(UsbDevice::data_transfer_loop(cancelled, 0), TransferStep::Resubmit);
    assert_eq!(UsbDevice::data_transfer_loop(failed, 512), TransferStep::Fail);
}

#[test]
fn the_generator_gives_these_values() {
    let mut state = 0;
    let first = rand16(&mut state);
    let s = 0x6c41u16;
    let a = s ^ (s << 7);
    let b = a ^ (a >> 9);
    assert_eq!(first, b ^ (b << 8));
    assert_eq!(state, first);
}

#[test]
fn the_generator_visits_every_state() {
    let mut seen = vec![false; 65536];
    let mut state = 1;
    for _ in 0..65535 {
        let value = rand16(&mut state);
        assert_ne!(value, 0);
        assert!(!seen[value as usize]);
        seen[value as usize] = true;
    }
    assert_eq!(state, 1);
}

#[test]
fn words_are_little_endian() {
    assert_eq!(bytemuck_cast_slice(&[1, 2, 3, 4, 5]), vec![0x0201, 0x0403]);
    assert_eq!(bytemuck_cast_slice(&[9]), Vec::<u16>::new());
}

/// The test pattern, from its start.
fn pattern(words: usize) -> Vec<u8> {
    let mut state = 0;
    (0..words).flat_map(|_| rand16(&mut state).to_le_bytes()).collect()
}

#[test]
fn the_test_pattern_is_checked() {
    let mut device = UsbDevice::new();
    let mut test = device.speed_test();
    assert_eq!(device.take().len(), 11);
    let data = pattern(1000);
    assert!(test.can_process(usize::MAX));
    assert_eq!(test.process(&data[..600]), Ok(()));
    assert!(test.can_process(usize::MAX - 600));
    assert!(!test.can_process(usize::MAX - 599));
    assert_eq!(test.report(999_999_999), None);
    assert_eq!(test.process(&data[600..]), Ok(()));
    assert_eq!(test.report(1_000_000_000), Some(2000));
    assert_eq!(test.report(1_000_000_000), Some(0));
}

#[test]
fn a_wrong_word_in_the_test_pattern_is_noticed() {
    let mut data = pattern(100);
    data[85] ^= 0x10;
    let mut test = SpeedTestState::new();
    assert_eq!(test.process(&data[..40]), Ok(()));
    assert_eq!(test.process(&data[40..]), Err(42));
}
