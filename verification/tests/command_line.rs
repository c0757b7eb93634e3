//! The command line and Wireshark's queries.

use usb_sniffer::capture::{handle_extcap, CaptureSpeed, CaptureTrigger};
use usb_sniffer::cli::{
    embed_serial, is_broken_pipe, parse_speed, parse_trigger, Cause, Command, Options,
};
use usb_sniffer::extcap::Line;

fn ask(
    version: Option<&str>,
    interfaces: bool,
    interface: Option<&str>,
    dlts: bool,
    config: bool,
) -> (Vec<String>, Vec<String>, bool) {
    let mut lines = Vec::new();
    let handled = handle_extcap(&mut lines, version, interfaces, interface, dlts, config);
    let mut out = Vec::new();
    let mut err = Vec::new();
    for line in lines {
        match line {
            Line::Answer { text } => out.push(text.to_string()),
            Line::Complaint { text } => err.push(text.to_string()),
        }
    }
    (out, err, handled)
}

#[test]
fn without_a_query_there_is_other_work() {
    assert_eq!(ask(None, false, None, false, false), (vec![], vec![], false));
    let name = Some("usb_sniffer");
    assert_eq!(ask(None, false, name, false, false), (vec![], vec![], false));
}

#[test]
fn the_version_is_announced() {
    let (out, err, handled) = ask(Some("4.0"), false, None, false, false);
    assert_eq!(
        out,
        vec!["extcap {version=1.0}{help=https://github.com/ataradov/usb-sniffer}{display=USB Sniffer}"]
    );
    assert!(err.is_empty());
    assert!(!handled);
    let (out, err, handled) = ask(Some("3.6"), false, None, false, false);
    assert!(out.is_empty());
    assert_eq!(err, vec!["unsupported extcap version"]);
    assert!(!handled);
}

#[test]
fn the_interface_is_listed() {
    let (out, err, handled) = ask(Some("4.0"), true, Some("other"), true, true);
    assert_eq!(out.len(), 2);
    assert_eq!(out[1], "interface {value=usb_sniffer}{display=USB Sniffer}");
    assert!(err.is_empty());
    assert!(handled);
}

#[test]
fn another_interface_is_refused() {
    let (out, err, handled) = ask(None, false, Some("usbmon"), true, true);
    assert!(out.is_empty());
    assert_eq!(err, vec!["invalid interface, expected usb_sniffer"]);
    assert!(handled);
}

#[test]
fn the_link_type_is_told() {
    let (out, err, handled) = ask(None, false, Some("usb_sniffer"), true, true);
    assert_eq!(out, vec!["dlt {number=288}{name=USB}{display=USB}"]);
    assert!(err.is_empty());
    assert!(handled);
}

#[test]
fn the_options_are_listed() {
    let (out, err, handled) = ask(None, false, Some("usb_sniffer"), false, true);
    assert_eq!(
        out,
        vec![
            "arg {number=0}{call=--speed}{display=Capture Speed}{tooltip=USB capture speed}{type=selector}",
            "value {arg=0}{value=ls}{display=Low-Speed}{default=false}",
            "value {arg=0}{value=fs}{display=Full-Speed}{default=true}",
            "value {arg=0}{value=hs}{display=High-Speed}{default=false}",
            "arg {number=1}{call=--fold}{display=Fold empty frames}{tooltip=Fold frames that have no data or errors}{type=boolflag}",
            "arg {number=2}{call=--trigger}{display=Capture Trigger}{tooltip=Condition used to start the capture}{type=selector}",
            "value {arg=2}{value=disabled}{display=Disabled}{default=true}",
            "value {arg=2}{value=low}{display=Low}{default=false}",
            "value {arg=2}{value=high}{display=High}{default=false}",
            "value {arg=2}{value=falling}{display=Falling}{default=false}",
            "value {arg=2}{value=rising}{display=Rising}{default=false}",
            "arg {number=3}{call=--limit}{display=Capture Limit}{tooltip=Limit the number of captured packets (0 for unlimited)}{type=integer}{range=0,10000000}{default=0}",
        ]
    );
    assert!(err.is_empty());
    assert!(handled);
}

#[test]
fn speeds_have_names() {
    let speed = |s| parse_speed(s).ok().unwrap();
    assert_eq!(speed(None), CaptureSpeed::FullSpeed);
    assert_eq!(speed(Some("ls")), CaptureSpeed::LowSpeed);
    assert_eq!(speed(Some("fs")), CaptureSpeed::FullSpeed);
    assert_eq!(speed(Some("hs")), CaptureSpeed::HighSpeed);
    let e = parse_speed(Some("ss")).err().unwrap();
    assert_eq!(e.message(), "unrecognized capture speed: 'ss'");
}

#[test]
fn triggers_have_names() {
    let trigger = |s| parse_trigger(s).ok().unwrap();
    assert_eq!(trigger(None), CaptureTrigger::Disabled);
    assert_eq!(trigger(Some("disabled")), CaptureTrigger::Disabled);
    assert_eq!(trigger(Some("low")), CaptureTrigger::Low);
    assert_eq!(trigger(Some("high")), CaptureTrigger::High);
    assert_eq!(trigger(Some("falling")), CaptureTrigger::Falling);
    assert_eq!(trigger(Some("rising")), CaptureTrigger::Rising);
    let e = parse_trigger(Some("")).err().unwrap();
    assert_eq!(e.message(), "unrecognized capture trigger: ''");
}

fn options() -> Options {
    Options {
        speed: None,
        trigger: None,
        limit: None,
        fold: false,
        capture: false,
        fifo: None,
        test: false,
        mcu_sram: None,
        mcu_eeprom: None,
        fpga_sram: None,
        fpga_flash: None,
        fpga_erase: false,
    }
}

fn everything() -> Options {
    let name = |s: &str| Some(s.to_string());
    Options {
        speed: name("hs"),
        trigger: name("rising"),
        limit: Some(10),
        fold: true,
        capture: true,
        fifo: name("fifo"),
        test: true,
        mcu_sram: name("a"),
        mcu_eeprom: name("b"),
        fpga_sram: name("c"),
        fpga_flash: name("d"),
        fpga_erase: true,
    }
}

fn command(o: Options) -> Command {
    o.command().ok().unwrap()
}

#[test]
fn one_command_is_chosen() {
    match command(everything()) {
        Command::Capture { fifo, speed, trigger, limit, fold } => {
            assert_eq!(fifo, "fifo");
            assert_eq!(speed, CaptureSpeed::HighSpeed);
            assert_eq!(trigger, CaptureTrigger::Rising);
            assert_eq!(limit, 10);
            assert!(fold);
        }
        _ => panic!("unexpected command"),
    }
    // A capture needs a file.
    let o = Options { fifo: None, ..everything() };
    assert!(matches!(command(o), Command::Test));
    let o = Options { capture: false, test: false, ..everything() };
    assert!(matches!(command(o), Command::McuSram { name } if name == "a"));
    let o = Options { capture: false, test: false, mcu_sram: None, ..everything() };
    assert!(matches!(command(o), Command::McuEeprom { name } if name == "b"));
    let o = Options {
        capture: false,
        test: false,
        mcu_sram: None,
        mcu_eeprom: None,
        ..everything()
    };
    assert!(matches!(command(o), Command::FpgaSram { name } if name == "c"));
    let flash = Options { fpga_flash: Some("d".to_string()), fpga_erase: true, ..options() };
    assert!(matches!(command(flash), Command::FpgaFlash { name } if name == "d"));
    let erase = Options { fpga_erase: true, ..options() };
    assert!(matches!(command(erase), Command::FpgaErase));
    assert!(matches!(command(options()), Command::Nothing));
}

#[test]
fn without_a_limit_the_capture_goes_on() {
    let o = Options { capture: true, fifo: Some("f".to_string()), ..options() };
    assert!(matches!(
        command(o),
        Command::Capture {
            speed: CaptureSpeed::FullSpeed,
            trigger: CaptureTrigger::Disabled,
            limit: -1,
            fold: false,
            ..
        }
    ));
}

#[test]
fn wrong_names_are_refused_whatever_is_asked_for() {
    let o = Options { speed: Some("x".to_string()), fpga_erase: true, ..options() };
    let e = o.command().err().unwrap();
    assert_eq!(e.message(), "unrecognized capture speed: 'x'");
    let o = Options { trigger: Some("y".to_string()), ..options() };
    let e = o.command().err().unwrap();
    assert_eq!(e.message(), "unrecognized capture trigger: 'y'");
    let o = Options {
        speed: Some("x".to_string()),
        trigger: Some("y".to_string()),
        ..options()
    };
    let e = o.command().err().unwrap();
    assert_eq!(e.message(), "unrecognized capture speed: 'x'");
}

#[test]
fn a_broken_pipe_is_found_in_a_chain() {
    assert!(is_broken_pipe(&[Cause::Other, Cause::BrokenPipe, Cause::Other]));
    assert!(is_broken_pipe(&[Cause::BrokenPipe]));
    assert!(!is_broken_pipe(&[Cause::Other]));
    assert!(!is_broken_pipe(&[]));
}

#[test]
fn the_serial_number_replaces_the_placeholder() {
    let mut data = b"ab[-----SN-----]cd[-----SN-----]".to_vec();
    let serial = embed_serial(&mut data, 0xff00_12ab_34cd_56ef).ok().unwrap();
    assert_eq!(serial, "0012ab34cd56ef");
    assert_eq!(data, b"ab0012ab34cd56efcd[-----SN-----]");
}

#[test]
fn firmware_without_a_placeholder_is_refused() {
    let mut data = b"[-----SN----]".to_vec();
    let e = embed_serial(&mut data, 1).err().unwrap();
    assert_eq!(e.message(), "provided binary does not include a serial number placeholder");
    assert_eq!(data, b"[-----SN----]");
}
