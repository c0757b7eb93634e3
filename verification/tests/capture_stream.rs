//! Captures: what the file says for a stream.

use usb_sniffer::capture::{run, CaptureCtrl, CaptureSpeed, CaptureState, CaptureTrigger, Flow};
use usb_sniffer::pcapng::Output;
use usb_sniffer::usb::{Action, UsbDevice};

/// An entry of a capture file.
#[derive(Debug, PartialEq, Clone)]
enum Entry {
    Section,
    Interface { link_type: u16, name: String, description: String },
    Packet { ts: u64, data: Vec<u8> },
    Text { ts: u64, text: String },
}

fn word(b: &[u8], i: usize) -> u32 {
    u32::from_le_bytes([b[i], b[i + 1], b[i + 2], b[i + 3]])
}

fn half(b: &[u8], i: usize) -> u16 {
    u16::from_le_bytes([b[i], b[i + 1]])
}

fn option_text(b: &[u8], i: usize) -> (u16, String, usize) {
    let len = half(b, i + 2) as usize;
    let text = String::from_utf8(b[i + 4..i + 4 + len].to_vec()).unwrap();
    (half(b, i), text, i + 4 + (len + 3) / 4 * 4)
}

/// Reads a capture file, block by block.
fn read_file(mut b: &[u8]) -> Vec<Entry> {
    let mut entries = Vec::new();
    while !b.is_empty() {
        let size = word(b, 4) as usize;
        assert_eq!(size % 4, 0);
        assert_eq!(word(b, size - 4) as usize, size);
        let block = &b[..size];
        entries.push(match word(block, 0) {
            0x0a0d0d0a => {
                assert_eq!(word(block, 8), 0x1a2b3c4d);
                assert_eq!(half(block, 12), 1);
                assert_eq!(half(block, 14), 0);
                assert_eq!(word(block, 16), 0xffffffff);
                assert_eq!(word(block, 20), 0xffffffff);
                let (code, text, next) = option_text(block, 24);
                assert_eq!((code, text.as_str()), (2, "USB Sniffer by Alex Taradov"));
                assert_eq!(word(block, next), 0);
                assert_eq!(next + 8, size);
                Entry::Section
            }
            1 => {
                assert_eq!(half(block, 10), 0);
                assert_eq!(word(block, 12), 0xffff);
                let (code, name, next) = option_text(block, 16);
                assert_eq!(code, 2);
                let (code, description, next) = option_text(block, next);
                assert_eq!(code, 3);
                assert_eq!(block[next..next + 8], [9, 0, 1, 0, 9, 0, 0, 0]);
                assert_eq!(word(block, next + 8), 0);
                assert_eq!(next + 16, size);
                Entry::Interface { link_type: half(block, 8), name, description }
            }
            6 => {
                let ts = ((word(block, 12) as u64) << 32) | word(block, 16) as u64;
                let len = word(block, 20) as usize;
                assert_eq!(word(block, 24) as usize, len);
                let data = &block[28..28 + len];
                let end = 28 + (len + 3) / 4 * 4;
                assert!(block[28 + len..end].iter().all(|&x| x == 0));
                if word(block, 8) == 0 {
                    assert_eq!(word(block, end), 0);
                    assert_eq!(end + 8, size);
                    Entry::Packet { ts, data: data.to_vec() }
                } else {
                    assert_eq!(word(block, 8), 1);
                    assert_eq!(end + 4, size);
                    assert_eq!(&data[..14], b"\x00\x0c\x00\x06syslog\x00\x00\x00\x00");
                    Entry::Text { ts, text: String::from_utf8(data[14..].to_vec()).unwrap() }
                }
            }
            other => panic!("unknown block {}", other),
        });
        b = &b[size..];
    }
    entries
}

fn text(ts: u64, text: &str) -> Entry {
    Entry::Text { ts, text: text.to_string() }
}

fn packet(ts: u64, data: &[u8]) -> Entry {
    Entry::Packet { ts, data: data.to_vec() }
}

/// A status frame at a number of ticks.
fn status(toggle: u8, ticks: u32, b3: u8) -> Vec<u8> {
    vec![toggle << 6 | (ticks >> 16) as u8, (ticks >> 8) as u8, ticks as u8, b3]
}

/// A data frame at a number of ticks.
fn data_frame(toggle: u8, ticks: u32, flags: u8, payload: &[u8]) -> Vec<u8> {
    let size = payload.len() + 7;
    let mut frame = vec![
        0x80 | toggle << 6 | (ticks >> 16) as u8,
        (ticks >> 8) as u8,
        ticks as u8,
        flags | (size >> 8) as u8,
        size as u8,
        0,
        0,
    ];
    frame.extend_from_slice(payload);
    frame
}

/// A capture that has been started, and its output, emptied.
fn started(
    speed: CaptureSpeed,
    trigger: CaptureTrigger,
    limit: i64,
    fold: bool,
) -> (CaptureState, Output) {
    let mut device = UsbDevice::new();
    let mut writer = Output::new();
    let state = run(&mut device, &mut writer, speed, trigger, limit, fold);
    writer.clear();
    (state, writer)
}

fn feed(state: &mut CaptureState, writer: &mut Output, data: &[u8]) -> (Flow, Vec<Entry>) {
    assert!(state.can_process(data.len()));
    let flow = state.process(writer, data);
    assert_eq!(writer.flushed_len(), writer.as_bytes().len());
    let entries = read_file(writer.as_bytes());
    writer.clear();
    (flow, entries)
}

#[test]
fn a_capture_starts_with_three_headers() {
    let cases = [
        (CaptureSpeed::LowSpeed, 293),
        (CaptureSpeed::FullSpeed, 294),
        (CaptureSpeed::HighSpeed, 295),
        (CaptureSpeed::Reset, 288),
    ];
    for (speed, link_type) in cases {
        let mut device = UsbDevice::new();
        let mut writer = Output::new();
        let _ = run(&mut device, &mut writer, speed, CaptureTrigger::Disabled, -1, false);
        assert_eq!(
            read_file(writer.as_bytes()),
            vec![
                Entry::Section,
                Entry::Interface {
                    link_type,
                    name: "usb".to_string(),
                    description: "Hardware USB interface".to_string(),
                },
                Entry::Interface {
                    link_type: 252,
                    name: "info".to_string(),
                    description: "Out of band information".to_string(),
                },
                text(0, "Starting capture"),
            ]
        );
        assert_eq!(writer.flushed_len(), writer.as_bytes().len());
    }
}

#[test]
fn the_section_header_has_these_bytes() {
    let mut state =
        CaptureState::new(CaptureSpeed::FullSpeed, CaptureTrigger::Disabled, false, -1);
    let mut writer = Output::new();
    state.write_headers(&mut writer);
    let bytes = writer.as_bytes();
    assert_eq!(bytes[..12], [0x0a, 0x0d, 0x0d, 0x0a, 64, 0, 0, 0, 0x4d, 0x3c, 0x2b, 0x1a]);
    assert_eq!(&bytes[24..28], &[2, 0, 27, 0]);
    assert_eq!(&bytes[28..55], b"USB Sniffer by Alex Taradov");
    assert_eq!(bytes[55..64], [0, 0, 0, 0, 0, 64, 0, 0, 0]);
    assert_eq!(writer.flushed_len(), 0);
}

#[test]
fn the_hardware_is_set_up_in_order() {
    let mut device = UsbDevice::new();
    let mut writer = Output::new();
    let _ = run(
        &mut device,
        &mut writer,
        CaptureSpeed::HighSpeed,
        CaptureTrigger::Rising,
        -1,
        false,
    );
    let on = |index: u8| index as u16 | 16;
    let off = |index: u8| index as u16;
    let expected = [
        Some(on(CaptureCtrl::RESET)),
        Some(off(CaptureCtrl::ENABLE)),
        Some(off(CaptureCtrl::TEST)),
        Some(on(CaptureCtrl::SPEED0)),
        Some(off(CaptureCtrl::SPEED0)),
        Some(on(CaptureCtrl::SPEED1)),
        Some(off(CaptureCtrl::SPEED1)),
        Some(off(CaptureCtrl::ENABLE)),
        Some(on(CaptureCtrl::RESET)),
        None,
        Some(off(CaptureCtrl::SPEED0)),
        Some(on(CaptureCtrl::SPEED1)),
        Some(off(CaptureCtrl::RESET)),
        Some(on(CaptureCtrl::ENABLE)),
    ];
    let actions = device.take();
    assert_eq!(actions.len(), expected.len());
    for (action, expected) in actions.iter().zip(expected) {
        match (action, expected) {
            (Action::ControlOut { request: 0xd0, value, index: 0, data }, Some(v)) => {
                assert_eq!(*value, v);
                assert!(data.is_empty());
            }
            (Action::Drain { attempts: 100, size: 512, timeout_ms: 20 }, None) => {}
            _ => panic!("unexpected action"),
        }
    }
    let entries = read_file(writer.as_bytes());
    assert_eq!(entries[3], text(0, "Waiting for a trigger"));
}

#[test]
fn a_packet_is_recorded_byte_for_byte() {
    let (mut state, mut writer) =
        started(CaptureSpeed::FullSpeed, CaptureTrigger::Disabled, -1, false);
    let payload = [0xc3, 1, 2, 3, 4];
    let (flow, entries) = feed(&mut state, &mut writer, &data_frame(0, 60, 0, &payload));
    assert_eq!(flow, Flow::Continue);
    assert_eq!(entries, vec![packet(1000, &payload)]);
    // The time has 20 bits; the header says when they wrap.
    let mut frame = data_frame(1, 6, 0, &payload);
    frame[0] |= 0x10;
    let (_, entries) = feed(&mut state, &mut writer, &frame);
    assert_eq!(entries, vec![packet((0x100000 + 6) * 100 / 6, &payload)]);
}

#[test]
fn the_largest_and_the_smallest_frames_are_taken() {
    let (mut state, mut writer) =
        started(CaptureSpeed::HighSpeed, CaptureTrigger::Disabled, -1, false);
    let payload = vec![0x4b; 1273];
    let (flow, entries) = feed(&mut state, &mut writer, &data_frame(0, 0, 0, &payload));
    assert_eq!((flow, entries), (Flow::Continue, vec![packet(0, &payload)]));
    let (flow, entries) = feed(&mut state, &mut writer, &data_frame(1, 0, 0, &[]));
    assert_eq!((flow, entries), (Flow::Continue, vec![]));
    let (flow, entries) = feed(&mut state, &mut writer, &data_frame(0, 0, 0, &[0xd2]));
    assert_eq!((flow, entries), (Flow::Continue, vec![packet(0, &[0xd2])]));
}

#[test]
fn the_file_does_not_depend_on_the_chunks() {
    let mut stream = Vec::new();
    for i in 0..40u32 {
        let toggle = (i % 2) as u8;
        if i % 5 == 0 {
            stream.extend(status(toggle, i * 1000, (i * 37) as u8));
        } else {
            let payload = [if i % 3 == 0 { 0xa5 } else { 0x69 }, i as u8, 7];
            stream.extend(data_frame(toggle, i * 1000, 0, &payload));
        }
    }
    let whole = {
        let (mut state, mut writer) =
            started(CaptureSpeed::FullSpeed, CaptureTrigger::Disabled, -1, true);
        state.process(&mut writer, &stream);
        writer.as_bytes().to_vec()
    };
    assert!(!whole.is_empty());
    for size in [1, 2, 3, 7, 64] {
        let (mut state, mut writer) =
            started(CaptureSpeed::FullSpeed, CaptureTrigger::Disabled, -1, true);
        for chunk in stream.chunks(size) {
            assert_eq!(state.process(&mut writer, chunk), Flow::Continue);
            assert_eq!(writer.flushed_len(), writer.as_bytes().len());
        }
        assert_eq!(writer.as_bytes(), &whole[..]);
    }
}

#[test]
fn earlier_records_stay() {
    let (mut state, mut writer) =
        started(CaptureSpeed::FullSpeed, CaptureTrigger::Disabled, -1, false);
    state.process(&mut writer, &data_frame(0, 0, 0, &[0xd2]));
    let before = writer.as_bytes().to_vec();
    state.process(&mut writer, &data_frame(1, 0, 0, &[0x5a]));
    assert_eq!(writer.as_bytes()[..before.len()], before[..]);
    assert_eq!(read_file(&writer.as_bytes()[before.len()..]), vec![packet(0, &[0x5a])]);
}

#[test]
fn the_first_status_frame_reports_everything() {
    let (mut state, mut writer) =
        started(CaptureSpeed::FullSpeed, CaptureTrigger::Disabled, -1, false);
    // Line state 3, bus voltage on, trigger low, full speed.
    let (_, entries) = feed(&mut state, &mut writer, &status(0, 60, 0x53));
    assert_eq!(
        entries,
        vec![
            text(1000, "Trigger input = 0"),
            text(1000, "VBUS ON"),
            text(1000, "Detected speed: Full-Speed"),
        ]
    );
    // Nothing changed.
    let (_, entries) = feed(&mut state, &mut writer, &status(1, 120, 0x53));
    assert_eq!(entries, vec![]);
    // A bus reset, the voltage off, and the end of the first line state.
    let (_, entries) = feed(&mut state, &mut writer, &status(0, 180, 0xc0));
    assert_eq!(
        entries,
        vec![
            text(1000, "Line state: J (2.00 us)"),
            text(3000, "VBUS OFF"),
            text(3000, "--- Bus Reset ---"),
        ]
    );
    let (_, entries) = feed(&mut state, &mut writer, &status(1, 240, 0x04));
    assert_eq!(
        entries,
        vec![
            text(3000, "Line state: SE0 (1.00 us)"),
            text(4000, "Detected speed: Low-Speed"),
        ]
    );
    let (_, entries) = feed(&mut state, &mut writer, &status(0, 300, 0x8a));
    assert_eq!(
        entries,
        vec![
            text(4000, "Line state: K [both] (1.00 us)"),
            text(5000, "Detected speed: High-Speed"),
        ]
    );
    let (_, entries) = feed(&mut state, &mut writer, &status(1, 359, 0x82));
    assert_eq!(
        entries,
        vec![text(5000, "Line state: Undefined (DP=2 / DM=2) (983.00 ns)")]
    );
    let (_, entries) = feed(&mut state, &mut writer, &status(0, 600_359, 0x80));
    assert_eq!(entries, vec![text(5983, "Line state: J [single]")]);
}

#[test]
fn a_low_speed_bus_idles_on_the_other_line() {
    let (mut state, mut writer) =
        started(CaptureSpeed::LowSpeed, CaptureTrigger::Disabled, -1, false);
    feed(&mut state, &mut writer, &status(0, 0, 0x0c));
    let (_, entries) = feed(&mut state, &mut writer, &status(1, 600_000 - 60, 0x03));
    assert_eq!(entries, vec![text(0, "Line state: J (10.00 ms)")]);
    let (_, entries) = feed(&mut state, &mut writer, &status(0, 600_000, 0x0c));
    assert_eq!(entries, vec![text(9_999_000, "Line state: K (1.00 us)")]);
}

#[test]
fn keep_alive_pulses_are_recognized() {
    // SE0 for 1.5 us, then J.
    let pulse = |toggle: u8, ticks: u32| {
        let mut s = status(toggle, ticks, 0x00);
        s.extend(status(1 - toggle, ticks + 90, 0x0c));
        s
    };
    let (mut state, mut writer) =
        started(CaptureSpeed::LowSpeed, CaptureTrigger::Disabled, -1, false);
    feed(&mut state, &mut writer, &status(0, 0, 0x0c));
    let (_, entries) = feed(&mut state, &mut writer, &pulse(1, 60_000));
    assert_eq!(entries, vec![text(0, "Line state: J (1.00 ms)"), text(1_000_000, "Keep-alive")]);
    // The line state of the pulse itself is not recorded, nor that of its end.
    let (_, entries) = feed(&mut state, &mut writer, &pulse(1, 120_000));
    assert_eq!(entries, vec![text(2_000_000, "Keep-alive")]);
    // One and two microseconds are the shortest and the longest pulse.
    for (ticks, length) in [(180_000, 60), (240_000, 120)] {
        feed(&mut state, &mut writer, &status(1, ticks, 0x00));
        let (_, entries) = feed(&mut state, &mut writer, &status(0, ticks + length, 0x0c));
        assert_eq!(entries, vec![text(ticks as u64 * 100 / 6, "Keep-alive")]);
    }
    // A tick less or more is none.
    for (ticks, length, shown) in [(300_000, 59, "983.00 ns"), (360_000, 121, "2.02 us")] {
        feed(&mut state, &mut writer, &status(1, ticks, 0x00));
        let (_, entries) = feed(&mut state, &mut writer, &status(0, ticks + length, 0x0c));
        let message = format!("Line state: SE0 ({})", shown);
        assert_eq!(entries, vec![text(ticks as u64 * 100 / 6, &message)]);
    }
    // Other buses have none.
    let (mut state, mut writer) =
        started(CaptureSpeed::FullSpeed, CaptureTrigger::Disabled, -1, false);
    feed(&mut state, &mut writer, &status(0, 0, 0x0c));
    let (_, entries) = feed(&mut state, &mut writer, &pulse(1, 60_000));
    assert_eq!(
        entries,
        vec![text(0, "Line state: K (1.00 ms)"), text(1_000_000, "Line state: SE0 (1.50 us)")]
    );
}

#[test]
fn keep_alive_pulses_are_folded() {
    let (mut state, mut writer) =
        started(CaptureSpeed::LowSpeed, CaptureTrigger::Disabled, -1, true);
    feed(&mut state, &mut writer, &status(0, 0, 0x0c));
    let mut toggle = 1;
    let mut ticks = 100;
    for _ in 0..3 {
        feed(&mut state, &mut writer, &status(toggle, ticks, 0x00));
        let (_, entries) = feed(&mut state, &mut writer, &status(1 - toggle, ticks + 90, 0x0c));
        assert_eq!(entries, vec![]);
        ticks += 60_000;
    }
    let (_, entries) =
        feed(&mut state, &mut writer, &data_frame(toggle, ticks, 0, &[0x2d, 0, 0x10]));
    let now = ticks as u64 * 100 / 6;
    assert_eq!(
        entries,
        vec![
            text(now, "Folded 2 empty frames"),
            text(120_100 * 100 / 6, "Keep-alive"),
            packet(now, &[0x2d, 0, 0x10]),
        ]
    );
    toggle = 1 - toggle;
    let (_, entries) = feed(&mut state, &mut writer, &data_frame(toggle, ticks, 0, &[0xa5, 1, 2]));
    assert_eq!(entries, vec![packet(now, &[0xa5, 1, 2])]);
}

#[test]
fn empty_frames_are_folded() {
    let (mut state, mut writer) =
        started(CaptureSpeed::FullSpeed, CaptureTrigger::Disabled, -1, true);
    let mut toggle = 0;
    let mut send = |state: &mut CaptureState, writer: &mut Output, ticks: u32, payload: &[u8]| {
        let r = feed(state, writer, &data_frame(toggle, ticks, 0, payload)).1;
        toggle = 1 - toggle;
        r
    };
    // Without a start of frame there is nothing to fold.
    assert_eq!(send(&mut state, &mut writer, 0, &[0x69, 0, 0]), vec![packet(0, &[0x69, 0, 0])]);
    for i in 0..3 {
        let sof = [0xa5, i, 0];
        assert_eq!(send(&mut state, &mut writer, 60 * i as u32, &sof), vec![]);
        assert_eq!(send(&mut state, &mut writer, 60 * i as u32 + 6, &[0x69, 1, i]), vec![]);
        assert_eq!(send(&mut state, &mut writer, 60 * i as u32 + 12, &[0x5a]), vec![]);
    }
    assert_eq!(
        send(&mut state, &mut writer, 600, &[0x4b, 9, 9, 9]),
        vec![
            text(10_000, "Folded 2 empty frames"),
            packet(2000, &[0xa5, 2, 0]),
            packet(2100, &[0x69, 1, 2]),
            packet(2200, &[0x5a]),
            packet(10_000, &[0x4b, 9, 9, 9]),
        ]
    );
    // One folded frame has its own wording.
    send(&mut state, &mut writer, 660, &[0xa5, 4, 0]);
    send(&mut state, &mut writer, 720, &[0xa5, 5, 0]);
    assert_eq!(
        send(&mut state, &mut writer, 780, &[0xd2]),
        vec![
            text(13_000, "Folded empty frame"),
            packet(12_000, &[0xa5, 5, 0]),
            packet(13_000, &[0xd2]),
        ]
    );
    // No frame was folded.
    send(&mut state, &mut writer, 840, &[0xa5, 6, 0]);
    assert_eq!(
        send(&mut state, &mut writer, 900, &[0xd2]),
        vec![packet(14_000, &[0xa5, 6, 0]), packet(15_000, &[0xd2])]
    );
}

#[test]
fn folded_frames_are_reported_at_the_limit() {
    for (speed, limit) in [(CaptureSpeed::FullSpeed, 1000), (CaptureSpeed::HighSpeed, 8000)] {
        let (mut state, mut writer) = started(speed, CaptureTrigger::Disabled, -1, true);
        let mut toggle = 0;
        for i in 0..=limit {
            let (_, entries) =
                feed(&mut state, &mut writer, &data_frame(toggle, 0, 0, &[0xa5, 0, 0]));
            toggle = 1 - toggle;
            if i < limit {
                assert_eq!(entries, vec![]);
            } else {
                assert_eq!(entries, vec![text(0, &format!("Folded {} empty frames", limit))]);
            }
        }
    }
}

#[test]
fn a_full_fold_buffer_is_written_out() {
    let (mut state, mut writer) =
        started(CaptureSpeed::FullSpeed, CaptureTrigger::Disabled, -1, true);
    let mut toggle = 0;
    let mut send = |state: &mut CaptureState, writer: &mut Output, payload: &[u8]| {
        let r = feed(state, writer, &data_frame(toggle, 0, 0, payload)).1;
        toggle = 1 - toggle;
        r
    };
    assert_eq!(send(&mut state, &mut writer, &[0xa5, 0, 0]), vec![]);
    for _ in 1..256 {
        assert_eq!(send(&mut state, &mut writer, &[0x5a]), vec![]);
    }
    let entries = send(&mut state, &mut writer, &[0x5a]);
    assert_eq!(entries.len(), 257);
    assert_eq!(entries[0], packet(0, &[0xa5, 0, 0]));
    assert_eq!(entries[256], packet(0, &[0x5a]));
}

#[test]
fn errors_are_recorded_and_never_folded() {
    let (mut state, mut writer) =
        started(CaptureSpeed::FullSpeed, CaptureTrigger::Disabled, -1, true);
    feed(&mut state, &mut writer, &data_frame(0, 0, 0, &[0xa5, 0, 0]));
    let (_, entries) = feed(&mut state, &mut writer, &data_frame(1, 6, 0x10, &[0xa5, 1, 0]));
    assert_eq!(entries, vec![packet(0, &[0xa5, 0, 0]), packet(100, &[0xa5, 1, 0])]);
    let (_, entries) = feed(&mut state, &mut writer, &data_frame(0, 12, 0x20, &[0x69, 1, 0]));
    assert_eq!(entries, vec![text(200, "USB PHY error"), packet(200, &[0x69, 1, 0])]);
    let (_, entries) = feed(&mut state, &mut writer, &data_frame(1, 18, 0x08, &[0xa5, 2, 0]));
    assert_eq!(entries, vec![text(300, "Hardware buffer overflow")]);
    let (_, entries) = feed(&mut state, &mut writer, &data_frame(0, 24, 0x28, &[0xd2]));
    assert_eq!(
        entries,
        vec![
            packet(300, &[0xa5, 2, 0]),
            text(400, "Hardware buffer overflow"),
            text(400, "USB PHY error"),
            packet(400, &[0xd2]),
        ]
    );
}

#[test]
fn the_limit_ends_the_capture() {
    let (mut state, mut writer) =
        started(CaptureSpeed::FullSpeed, CaptureTrigger::Disabled, 3, false);
    let (flow, _) = feed(&mut state, &mut writer, &data_frame(0, 0, 0, &[0xd2]));
    assert_eq!(flow, Flow::Continue);
    let (flow, _) = feed(&mut state, &mut writer, &data_frame(1, 0, 0, &[0xd2]));
    assert_eq!(flow, Flow::Continue);
    // What comes after the last packet is ignored.
    let mut rest = data_frame(0, 6, 0, &[0xd2]);
    rest.extend(data_frame(1, 12, 0, &[0xd2]));
    let (flow, entries) = feed(&mut state, &mut writer, &rest);
    assert_eq!(flow, Flow::Stop);
    assert_eq!(entries, vec![packet(100, &[0xd2]), text(100, "Capture limit reached")]);
}

#[test]
fn a_limit_of_zero_is_none() {
    for limit in [0, -1, -5] {
        let (mut state, mut writer) =
            started(CaptureSpeed::FullSpeed, CaptureTrigger::Disabled, limit, false);
        let mut toggle = 0;
        for _ in 0..50 {
            let (flow, entries) =
                feed(&mut state, &mut writer, &data_frame(toggle, 0, 0, &[0xd2]));
            assert_eq!((flow, entries), (Flow::Continue, vec![packet(0, &[0xd2])]));
            toggle = 1 - toggle;
        }
    }
}

#[test]
fn folded_packets_count_toward_the_limit() {
    let (mut state, mut writer) =
        started(CaptureSpeed::FullSpeed, CaptureTrigger::Disabled, 2, true);
    feed(&mut state, &mut writer, &data_frame(0, 0, 0, &[0xa5, 0, 0]));
    let (flow, entries) = feed(&mut state, &mut writer, &data_frame(1, 6, 0, &[0xa5, 1, 0]));
    assert_eq!(flow, Flow::Stop);
    assert_eq!(
        entries,
        vec![
            text(100, "Folded empty frame"),
            packet(100, &[0xa5, 1, 0]),
            text(100, "Capture limit reached"),
        ]
    );
}

#[test]
fn a_wrong_toggle_bit_ends_the_capture() {
    let (mut state, mut writer) =
        started(CaptureSpeed::FullSpeed, CaptureTrigger::Disabled, -1, false);
    let (flow, entries) = feed(&mut state, &mut writer, &status(1, 0x12345, 0x67));
    assert_eq!(flow, Flow::Stop);
    assert_eq!(
        entries,
        vec![
            text(0, "Error: received toggle value 1, expected 0"),
            text(0, "Error: protocol desynchronization, stopping the capture"),
            text(0, "Packet header: 41 23 45 67 "),
        ]
    );
}

#[test]
fn a_zero_bit_ends_the_capture() {
    let (mut state, mut writer) =
        started(CaptureSpeed::FullSpeed, CaptureTrigger::Disabled, -1, false);
    let mut frame = status(0, 0, 0);
    frame[0] |= 0x20;
    let (flow, entries) = feed(&mut state, &mut writer, &frame);
    assert_eq!(flow, Flow::Stop);
    assert_eq!(
        entries,
        vec![
            text(0, "Error: zero bit in the header is not zero"),
            text(0, "Error: protocol desynchronization, stopping the capture"),
            text(0, "Packet header: 20 00 00 00 "),
        ]
    );
}

#[test]
fn an_impossible_size_ends_the_capture() {
    for size in [0usize, 6, 1281, 2047] {
        let (mut state, mut writer) =
            started(CaptureSpeed::FullSpeed, CaptureTrigger::Disabled, -1, false);
        let frame = [0x80, 0, 60, (size >> 8) as u8, size as u8, 0xab, 0xcd];
        let (flow, entries) = feed(&mut state, &mut writer, &frame);
        assert_eq!(flow, Flow::Stop);
        assert_eq!(entries[0], text(1000, &format!("Error: invalid data size ({})", size)));
        assert_eq!(
            entries[1],
            text(1000, "Error: protocol desynchronization, stopping the capture")
        );
        let shown =
            format!("Packet header: 80 00 3c {:02x} {:02x} ab cd ", size >> 8, size & 0xff);
        assert_eq!(entries[2], text(1000, &shown));
        assert_eq!(entries.len(), 3);
    }
}

#[test]
fn level_triggers_follow_the_input() {
    for (trigger, active) in [(CaptureTrigger::Low, 0x00), (CaptureTrigger::High, 0x20)] {
        let (mut state, mut writer) = started(CaptureSpeed::FullSpeed, trigger, -1, false);
        // Nothing is recorded before the trigger.
        let (_, entries) = feed(&mut state, &mut writer, &data_frame(0, 0, 0, &[0xd2]));
        assert_eq!(entries, vec![]);
        let (_, entries) = feed(&mut state, &mut writer, &status(1, 0, active));
        assert_eq!(
            entries,
            vec![
                text(0, &format!("Trigger input = {}", active >> 5)),
                text(0, "Starting capture"),
                text(0, "VBUS OFF"),
                text(0, "Detected speed: Low-Speed"),
            ]
        );
        let (_, entries) = feed(&mut state, &mut writer, &data_frame(0, 0, 0, &[0xd2]));
        assert!(entries.contains(&packet(0, &[0xd2])));
        let (_, entries) = feed(&mut state, &mut writer, &status(1, 0, active ^ 0x20));
        assert_eq!(
            entries,
            vec![
                text(0, &format!("Trigger input = {}", (active ^ 0x20) >> 5)),
                text(0, "Waiting for a trigger"),
            ]
        );
        let (_, entries) = feed(&mut state, &mut writer, &data_frame(0, 0, 0, &[0xd2]));
        assert_eq!(entries, vec![]);
    }
}

#[test]
fn edge_triggers_start_at_the_edge() {
    for (trigger, before) in [(CaptureTrigger::Falling, 0x20), (CaptureTrigger::Rising, 0x00)] {
        let (mut state, mut writer) = started(CaptureSpeed::FullSpeed, trigger, -1, false);
        // The first state of the input is no edge.
        let (_, entries) = feed(&mut state, &mut writer, &status(0, 0, before));
        assert!(!entries.contains(&text(0, "Starting capture")));
        let (_, entries) = feed(&mut state, &mut writer, &status(1, 0, before ^ 0x20));
        assert!(entries.contains(&text(0, "Starting capture")));
        // The other edge does not end it.
        let (_, entries) = feed(&mut state, &mut writer, &status(0, 0, before));
        assert_eq!(entries, vec![text(0, &format!("Trigger input = {}", before >> 5))]);
        let (_, entries) = feed(&mut state, &mut writer, &data_frame(1, 0, 0, &[0xd2]));
        assert_eq!(entries.last(), Some(&packet(0, &[0xd2])));
    }
}

#[test]
fn a_quiet_bus_is_reported_every_two_seconds() {
    let (mut state, mut writer) =
        started(CaptureSpeed::FullSpeed, CaptureTrigger::Disabled, -1, false);
    feed(&mut state, &mut writer, &status(0, 0, 0x00));
    let mut toggle = 1;
    let mut reports = Vec::new();
    for i in 1..=400u64 {
        let mut frame = status(toggle, 0, 0x00);
        frame[0] |= 0x10;
        let (_, entries) = feed(&mut state, &mut writer, &frame);
        for entry in entries {
            match entry {
                Entry::Text { ts, text } if text == "Periodic update" => {
                    assert_eq!(ts, i * 0x100000 * 100 / 6);
                    reports.push(i);
                }
                _ => {}
            }
        }
        toggle = 1 - toggle;
    }
    // A wrap takes 17.476 ms, so 115 of them are the first to take more than two seconds.
    assert_eq!(reports, vec![115, 230, 345]);
}

#[test]
fn two_seconds_are_long_enough_for_a_report() {
    // 120,000,000 ticks are 114 wraps and 462,336 ticks.
    for (ticks, reported) in [(462_335, false), (462_336, true)] {
        let (mut state, mut writer) =
            started(CaptureSpeed::FullSpeed, CaptureTrigger::Disabled, -1, false);
        feed(&mut state, &mut writer, &status(0, 0, 0x00));
        let mut toggle = 1;
        for i in 1..=114 {
            let mut frame = status(toggle, if i == 114 { ticks } else { 0 }, 0x00);
            frame[0] |= 0x10;
            let (_, entries) = feed(&mut state, &mut writer, &frame);
            if i == 114 && reported {
                assert_eq!(entries.last(), Some(&text(2_000_000_000, "Periodic update")));
            } else {
                assert_eq!(entries, vec![]);
            }
            toggle = 1 - toggle;
        }
    }
}

#[test]
fn a_repeated_status_frame_changes_nothing() {
    for b3 in [0x00, 0x53, 0xff] {
        let (mut state, mut writer) =
            started(CaptureSpeed::LowSpeed, CaptureTrigger::Disabled, -1, true);
        feed(&mut state, &mut writer, &status(0, 0, b3));
        for i in 1..10u32 {
            let (flow, entries) = feed(&mut state, &mut writer, &status((i % 2) as u8, i, b3));
            assert_eq!((flow, entries), (Flow::Continue, vec![]));
        }
    }
}

#[test]
fn the_clock_is_guarded() {
    let state = CaptureState::new(CaptureSpeed::FullSpeed, CaptureTrigger::Disabled, false, -1);
    assert!(state.can_process(1_024_000));
    assert!(!state.can_process(1 << 40));
}

#[test]
fn any_stream_gives_a_readable_file() {
    let mut seed = 12345u32;
    let mut next = move || {
        seed = seed.wrapping_mul(1664525).wrapping_add(1013904223);
        (seed >> 24) as u8
    };
    for round in 0..200 {
        let mut device = UsbDevice::new();
        let mut writer = Output::new();
        let speed = [CaptureSpeed::LowSpeed, CaptureSpeed::FullSpeed][round % 2];
        let fold = round % 3 == 0;
        let trigger = [CaptureTrigger::Disabled, CaptureTrigger::Low][round % 5 / 4];
        let mut state = run(&mut device, &mut writer, speed, trigger, round as i64, fold);
        let mut toggle = 0;
        let mut packets = Vec::new();
        for _ in 0..100 {
            let ticks = next() as u32 * 256 + next() as u32;
            let frame = if next() % 2 == 0 {
                status(toggle, ticks, next())
            } else {
                let mut payload = vec![[0xa5, 0x69, 0x5a, 0x4b][next() as usize % 4]];
                payload.extend((0..next() % 8).map(|_| next()));
                packets.push(payload.clone());
                data_frame(toggle, ticks, next() & 0x30, &payload)
            };
            toggle = 1 - toggle;
            if state.process(&mut writer, &frame) == Flow::Stop {
                break;
            }
        }
        let entries = read_file(writer.as_bytes());
        assert_eq!(writer.flushed_len(), writer.as_bytes().len());
        // The packets in the file are among those sent, in the order in which they were sent.
        let mut sent = packets.into_iter();
        for entry in entries {
            if let Entry::Packet { data, .. } = entry {
                assert!(sent.any(|p| p == data));
            }
        }
    }
    // Bytes without any sense end the capture soon.
    for _ in 0..200 {
        let (mut state, mut writer) =
            started(CaptureSpeed::HighSpeed, CaptureTrigger::Disabled, -1, true);
        let noise: Vec<u8> = (0..5000).map(|_| next()).collect();
        let (flow, entries) = feed(&mut state, &mut writer, &noise);
        assert_eq!(flow, Flow::Stop);
        assert!(matches!(entries.last(), Some(Entry::Text { text, .. }) if text.starts_with("Packet header: ")));
    }
}
