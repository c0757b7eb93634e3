//! What the command line and Wireshark ask for.

use vstd::prelude::*;
use vstd::utf8::*;

use crate::capture::{CaptureSpeed, CaptureTrigger};
use crate::cli;
use crate::cli::{Command, Options};
use crate::extcap;
use crate::extcap::Printed;
use crate::jed;
use crate::laws::files;
use crate::laws::texts;

verus! {

/// Each speed has its one name, and full speed is also what an absent name stands for.
pub proof fn law_speed_names(name: Option<Seq<char>>)
    ensures
        cli::speed_named(name) == Some(CaptureSpeed::LowSpeed) <==> name == Some("ls"@),
        cli::speed_named(name) == Some(CaptureSpeed::FullSpeed) <==> name is None || name == Some(
            "fs"@,
        ),
        cli::speed_named(name) == Some(CaptureSpeed::HighSpeed) <==> name == Some("hs"@),
        cli::speed_named(name) != Some(CaptureSpeed::Reset),
{
    reveal_strlit("ls");
    reveal_strlit("fs");
    reveal_strlit("hs");
    assert("ls"@[0] != "fs"@[0] && "ls"@[0] != "hs"@[0] && "fs"@[0] != "hs"@[0]);
}

/// Each trigger has its one name, and no trigger is also what an absent name stands for.
pub proof fn law_trigger_names(name: Option<Seq<char>>)
    ensures
        cli::trigger_named(name) == Some(CaptureTrigger::Disabled) <==> name is None || name
            == Some("disabled"@),
        cli::trigger_named(name) == Some(CaptureTrigger::Low) <==> name == Some("low"@),
        cli::trigger_named(name) == Some(CaptureTrigger::High) <==> name == Some("high"@),
        cli::trigger_named(name) == Some(CaptureTrigger::Falling) <==> name == Some("falling"@),
        cli::trigger_named(name) == Some(CaptureTrigger::Rising) <==> name == Some("rising"@),
{
    reveal_strlit("disabled");
    reveal_strlit("low");
    reveal_strlit("high");
    reveal_strlit("falling");
    reveal_strlit("rising");
    assert("disabled"@[0] == 'd' && "low"@[0] == 'l' && "high"@[0] == 'h' && "falling"@[0] == 'f'
        && "rising"@[0] == 'r');
}

/// The command line asks for a capture that has somewhere to go.
pub open spec fn asks_for_capture(o: Options) -> bool {
    o.capture && o.fifo is Some
}

/// Of all that is asked for, one thing is done: a capture before the speed test, then firmware for
/// the memory and for the EEPROM of the microcontroller, and last the FPGA: its SRAM, its flash
/// memory, and the erasure of that.
pub proof fn law_one_command(o: Options, speed: CaptureSpeed, trigger: CaptureTrigger)
    ensures
        ({
            let r = cli::requested(o, speed, trigger);
            let before_sram = asks_for_capture(o) || o.test;
            let before_eeprom = before_sram || o.mcu_sram is Some;
            let before_fpga = before_eeprom || o.mcu_eeprom is Some;
            let before_flash = before_fpga || o.fpga_sram is Some;
            let before_erase = before_flash || o.fpga_flash is Some;
            &&& r is Capture <==> asks_for_capture(o)
            &&& r is Test <==> o.test && !asks_for_capture(o)
            &&& r is McuSram <==> o.mcu_sram is Some && !before_sram
            &&& r is McuEeprom <==> o.mcu_eeprom is Some && !before_eeprom
            &&& r is FpgaSram <==> o.fpga_sram is Some && !before_fpga
            &&& r is FpgaFlash <==> o.fpga_flash is Some && !before_flash
            &&& r is FpgaErase <==> o.fpga_erase && !before_erase
            &&& r is Nothing <==> !before_erase && !o.fpga_erase
        }),
{
}

/// What is done gets what was given for it. Without a limit a capture has none, which is less than
/// zero.
pub proof fn law_command_arguments(o: Options, speed: CaptureSpeed, trigger: CaptureTrigger)
    ensures
        match cli::requested(o, speed, trigger) {
            Command::Capture { fifo, speed: s, trigger: t, limit, fold } => {
                &&& o.fifo == Some(fifo)
                &&& s == speed
                &&& t == trigger
                &&& o.limit is Some ==> o.limit == Some(limit)
                &&& o.limit is None ==> limit == -1
                &&& fold == o.fold
            },
            Command::McuSram { name } => o.mcu_sram == Some(name),
            Command::McuEeprom { name } => o.mcu_eeprom == Some(name),
            Command::FpgaSram { name } => o.fpga_sram == Some(name),
            Command::FpgaFlash { name } => o.fpga_flash == Some(name),
            _ => true,
        },
{
}

/// A line for the standard output of which only the text counts.
pub open spec fn says(line: Printed, text: Seq<char>) -> bool {
    line matches Printed::Answer { text: t } && t == text
}

/// One line for the standard error.
pub open spec fn complains(lines: Seq<Printed>, text: Seq<char>) -> bool {
    &&& lines.len() == 1
    &&& lines[0] matches Printed::Complaint { text: t } && t == text
}

/// The version of Wireshark's interface is answered with that of this program, and any other than
/// 4.0 is complained about. No version, no answer.
pub proof fn law_version_reply(version: Option<Seq<char>>)
    ensures
        ({
            let r = extcap::version_reply(version);
            &&& version is None ==> r.len() == 0
            &&& version == Some("4.0"@) ==> r.len() == 1 && says(
                r[0],
                "extcap {version=1.0}{help=https://github.com/ataradov/usb-sniffer}{display=USB Sniffer}"@,
            )
            &&& version is Some && version != Some("4.0"@) ==> complains(
                r,
                "unsupported extcap version"@,
            )
        }),
{
}

/// The list of interfaces comes before everything else, and a wrong interface before what is asked
/// of it; the link type comes before the options. Without a query there is no answer.
pub proof fn law_query_reply(
    interfaces: bool,
    interface: Option<Seq<char>>,
    dlts: bool,
    config: bool,
)
    ensures
        ({
            let r = extcap::query_reply(interfaces, interface, dlts, config);
            let wrong = interface is Some && interface != Some("usb_sniffer"@);
            &&& r is Some <==> interfaces || wrong || dlts || config
            &&& interfaces ==> r->0.len() == 1 && says(
                r->0[0],
                "interface {value=usb_sniffer}{display=USB Sniffer}"@,
            )
            &&& !interfaces && wrong ==> complains(
                r->0,
                "invalid interface, expected usb_sniffer"@,
            )
            &&& !interfaces && !wrong && dlts ==> r->0.len() == 1 && says(
                r->0[0],
                "dlt {number=288}{name=USB}{display=USB}"@,
            )
            &&& !interfaces && !wrong && !dlts && config ==> r->0.len() == 12
        }),
{
}

/// The line that offers a value of an option.
pub open spec fn value_line(
    arg: Seq<char>,
    name: Seq<char>,
    display: Seq<char>,
    default: bool,
) -> Seq<char> {
    "value {arg="@ + arg + "}{value="@ + name + "}{display="@ + display + "}{default="@ + (
    if default {
        "true"@
    } else {
        "false"@
    }) + "}"@
}

proof fn lemma_pieces()
    ensures
        "value {arg="@ =~= seq!['v', 'a', 'l', 'u', 'e', ' ', '{', 'a', 'r', 'g', '='],
        "}{value="@ =~= seq!['}', '{', 'v', 'a', 'l', 'u', 'e', '='],
        "}{display="@ =~= seq!['}', '{', 'd', 'i', 's', 'p', 'l', 'a', 'y', '='],
        "}{default="@ =~= seq!['}', '{', 'd', 'e', 'f', 'a', 'u', 'l', 't', '='],
        "true"@ =~= seq!['t', 'r', 'u', 'e'],
        "false"@ =~= seq!['f', 'a', 'l', 's', 'e'],
        "}"@ =~= seq!['}'],
{
    reveal_strlit("value {arg=");
    reveal_strlit("}{value=");
    reveal_strlit("}{display=");
    reveal_strlit("}{default=");
    reveal_strlit("true");
    reveal_strlit("false");
    reveal_strlit("}");
}

proof fn lemma_ls_line()
    ensures
        "value {arg=0}{value=ls}{display=Low-Speed}{default=false}"@ == value_line(
            "0"@,
            "ls"@,
            "Low-Speed"@,
            false,
        ),
{
    lemma_pieces();
    reveal_strlit("0");
    reveal_strlit("ls");
    reveal_strlit("Low-Speed");
    reveal_strlit("value {arg=0}{value=ls}{display=Low-Speed}{default=false}");
    assert("value {arg=0}{value=ls}{display=Low-Speed}{default=false}"@ =~= value_line(
        "0"@,
        "ls"@,
        "Low-Speed"@,
        false,
    ));
}

proof fn lemma_fs_line()
    ensures
        "value {arg=0}{value=fs}{display=Full-Speed}{default=true}"@ == value_line(
            "0"@,
            "fs"@,
            "Full-Speed"@,
            true,
        ),
{
    lemma_pieces();
    reveal_strlit("0");
    reveal_strlit("fs");
    reveal_strlit("Full-Speed");
    reveal_strlit("value {arg=0}{value=fs}{display=Full-Speed}{default=true}");
    assert("value {arg=0}{value=fs}{display=Full-Speed}{default=true}"@ =~= value_line(
        "0"@,
        "fs"@,
        "Full-Speed"@,
        true,
    ));
}

proof fn lemma_hs_line()
    ensures
        "value {arg=0}{value=hs}{display=High-Speed}{default=false}"@ == value_line(
            "0"@,
            "hs"@,
            "High-Speed"@,
            false,
        ),
{
    lemma_pieces();
    reveal_strlit("0");
    reveal_strlit("hs");
    reveal_strlit("High-Speed");
    reveal_strlit("value {arg=0}{value=hs}{display=High-Speed}{default=false}");
    assert("value {arg=0}{value=hs}{display=High-Speed}{default=false}"@ =~= value_line(
        "0"@,
        "hs"@,
        "High-Speed"@,
        false,
    ));
}

proof fn lemma_disabled_line()
    ensures
        "value {arg=2}{value=disabled}{display=Disabled}{default=true}"@ == value_line(
            "2"@,
            "disabled"@,
            "Disabled"@,
            true,
        ),
{
    lemma_pieces();
    reveal_strlit("2");
    reveal_strlit("disabled");
    reveal_strlit("Disabled");
    reveal_strlit("value {arg=2}{value=disabled}{display=Disabled}{default=true}");
    assert("value {arg=2}{value=disabled}{display=Disabled}{default=true}"@ =~= value_line(
        "2"@,
        "disabled"@,
        "Disabled"@,
        true,
    ));
}

proof fn lemma_low_line()
    ensures
        "value {arg=2}{value=low}{display=Low}{default=false}"@ == value_line(
            "2"@,
            "low"@,
            "Low"@,
            false,
        ),
{
    lemma_pieces();
    reveal_strlit("2");
    reveal_strlit("low");
    reveal_strlit("Low");
    reveal_strlit("value {arg=2}{value=low}{display=Low}{default=false}");
    assert("value {arg=2}{value=low}{display=Low}{default=false}"@ =~= value_line(
        "2"@,
        "low"@,
        "Low"@,
        false,
    ));
}

proof fn lemma_high_line()
    ensures
        "value {arg=2}{value=high}{display=High}{default=false}"@ == value_line(
            "2"@,
            "high"@,
            "High"@,
            false,
        ),
{
    lemma_pieces();
    reveal_strlit("2");
    reveal_strlit("high");
    reveal_strlit("High");
    reveal_strlit("value {arg=2}{value=high}{display=High}{default=false}");
    assert("value {arg=2}{value=high}{display=High}{default=false}"@ =~= value_line(
        "2"@,
        "high"@,
        "High"@,
        false,
    ));
}

proof fn lemma_falling_line()
    ensures
        "value {arg=2}{value=falling}{display=Falling}{default=false}"@ == value_line(
            "2"@,
            "falling"@,
            "Falling"@,
            false,
        ),
{
    lemma_pieces();
    reveal_strlit("2");
    reveal_strlit("falling");
    reveal_strlit("Falling");
    reveal_strlit("value {arg=2}{value=falling}{display=Falling}{default=false}");
    assert("value {arg=2}{value=falling}{display=Falling}{default=false}"@ =~= value_line(
        "2"@,
        "falling"@,
        "Falling"@,
        false,
    ));
}

proof fn lemma_rising_line()
    ensures
        "value {arg=2}{value=rising}{display=Rising}{default=false}"@ == value_line(
            "2"@,
            "rising"@,
            "Rising"@,
            false,
        ),
{
    lemma_pieces();
    reveal_strlit("2");
    reveal_strlit("rising");
    reveal_strlit("Rising");
    reveal_strlit("value {arg=2}{value=rising}{display=Rising}{default=false}");
    assert("value {arg=2}{value=rising}{display=Rising}{default=false}"@ =~= value_line(
        "2"@,
        "rising"@,
        "Rising"@,
        false,
    ));
}

/// The speeds that Wireshark offers are those that the command line takes, and the default is the
/// same.
pub proof fn law_speeds_offered()
    ensures
        says(
            extcap::config()[1],
            value_line(
                "0"@,
                "ls"@,
                "Low-Speed"@,
                cli::speed_named(Some("ls"@)) == cli::speed_named(None),
            ),
        ),
        cli::speed_named(Some("ls"@)) is Some,
        says(
            extcap::config()[2],
            value_line(
                "0"@,
                "fs"@,
                "Full-Speed"@,
                cli::speed_named(Some("fs"@)) == cli::speed_named(None),
            ),
        ),
        cli::speed_named(Some("fs"@)) is Some,
        says(
            extcap::config()[3],
            value_line(
                "0"@,
                "hs"@,
                "High-Speed"@,
                cli::speed_named(Some("hs"@)) == cli::speed_named(None),
            ),
        ),
        cli::speed_named(Some("hs"@)) is Some,
{
    lemma_ls_line();
    law_speed_names(Some("ls"@));
    lemma_fs_line();
    law_speed_names(Some("fs"@));
    lemma_hs_line();
    law_speed_names(Some("hs"@));
    law_speed_names(None);
    reveal_strlit("ls");
    reveal_strlit("fs");
    reveal_strlit("hs");
}

/// The triggers that Wireshark offers are those that the command line takes, and the default is the
/// same.
pub proof fn law_triggers_offered()
    ensures
        says(
            extcap::config()[6],
            value_line(
                "2"@,
                "disabled"@,
                "Disabled"@,
                cli::trigger_named(Some("disabled"@)) == cli::trigger_named(None),
            ),
        ),
        cli::trigger_named(Some("disabled"@)) is Some,
        says(
            extcap::config()[7],
            value_line(
                "2"@,
                "low"@,
                "Low"@,
                cli::trigger_named(Some("low"@)) == cli::trigger_named(None),
            ),
        ),
        cli::trigger_named(Some("low"@)) is Some,
        says(
            extcap::config()[8],
            value_line(
                "2"@,
                "high"@,
                "High"@,
                cli::trigger_named(Some("high"@)) == cli::trigger_named(None),
            ),
        ),
        cli::trigger_named(Some("high"@)) is Some,
        says(
            extcap::config()[9],
            value_line(
                "2"@,
                "falling"@,
                "Falling"@,
                cli::trigger_named(Some("falling"@)) == cli::trigger_named(None),
            ),
        ),
        cli::trigger_named(Some("falling"@)) is Some,
        says(
            extcap::config()[10],
            value_line(
                "2"@,
                "rising"@,
                "Rising"@,
                cli::trigger_named(Some("rising"@)) == cli::trigger_named(None),
            ),
        ),
        cli::trigger_named(Some("rising"@)) is Some,
{
    lemma_disabled_line();
    law_trigger_names(Some("disabled"@));
    lemma_low_line();
    law_trigger_names(Some("low"@));
    lemma_high_line();
    law_trigger_names(Some("high"@));
    lemma_falling_line();
    law_trigger_names(Some("falling"@));
    lemma_rising_line();
    law_trigger_names(Some("rising"@));
    law_trigger_names(None);
    reveal_strlit("disabled");
    reveal_strlit("low");
    reveal_strlit("high");
    reveal_strlit("falling");
    reveal_strlit("rising");
}

/// The options that Wireshark offers, besides their values.
pub proof fn law_options_offered()
    ensures
        extcap::config().len() == 12,
        says(
            extcap::config()[0],
            "arg {number=0}{call=--speed}{display=Capture Speed}{tooltip=USB capture speed}{type=selector}"@,
        ),
        says(
            extcap::config()[4],
            "arg {number=1}{call=--fold}{display=Fold empty frames}{tooltip=Fold frames that have no data or errors}{type=boolflag}"@,
        ),
        says(
            extcap::config()[5],
            "arg {number=2}{call=--trigger}{display=Capture Trigger}{tooltip=Condition used to start the capture}{type=selector}"@,
        ),
        says(
            extcap::config()[11],
            "arg {number=3}{call=--limit}{display=Capture Limit}{tooltip=Limit the number of captured packets (0 for unlimited)}{type=integer}{range=0,10000000}{default=0}"@,
        ),
{
}

/// The serial number takes the place of the first placeholder, digit by digit, and nothing else
/// changes: fourteen digits for the low 56 bits of the number of the device.
pub proof fn law_serial_embedded(data: Seq<u8>, traceid: u64, pos: int)
    requires
        jed::first_occurrence(data, encode_utf8("[-----SN-----]"@)) == Some(pos),
    ensures
        ({
            let serial = cli::serial_number(traceid);
            let r = cli::with_serial(data, pos, serial);
            &&& cli::placeholder() == encode_utf8("[-----SN-----]"@)
            &&& serial.len() == 14
            &&& files::hex_value(serial) == traceid % 0x100_0000_0000_0000
            &&& r.len() == data.len()
            &&& forall|i: int|
                0 <= i < data.len() ==> #[trigger] r[i] as int == (if pos <= i < pos + 14 {
                    serial[i - pos] as int
                } else {
                    data[i] as int
                })
        }),
{
    let serial = cli::serial_number(traceid);
    let r = cli::with_serial(data, pos, serial);
    files::law_serial_number(data, traceid, pos);
    texts::law_hexadecimal_digits(traceid as nat, 14);
    assert(is_ascii_chars(serial)) by {
        assert forall|i: int| 0 <= i < serial.len() implies 0 <= #[trigger] serial[i] as int <= 127
            by {
            assert(texts::is_hexadecimal(serial[i]));
        }
    }
    is_ascii_chars_encode_utf8(serial);
    let bytes = encode_utf8(serial);
    assert forall|i: int| 0 <= i < data.len() implies #[trigger] r[i] as int == (if pos <= i < pos
        + 14 {
        serial[i - pos] as int
    } else {
        data[i] as int
    }) by {
        if pos <= i < pos + 14 {
            assert(r.subrange(pos, pos + 14)[i - pos] == bytes[i - pos]);
            assert(bytes[i - pos] as char == serial[i - pos]);
        }
    }
}

} // verus!
