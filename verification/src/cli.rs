//! What the command line asks for.

use vstd::prelude::*;
use vstd::string::*;
use vstd::utf8::*;

use crate::capture::{CaptureSpeed, CaptureTrigger};
use crate::jed;
use crate::text;

verus! {

/// The vendor of a microcontroller without firmware.
pub const FX2LP_VID: u16 = 0x04b4;

/// The product of a microcontroller without firmware.
pub const FX2LP_PID: u16 = 0x8613;

/// The vendor of a capture device.
pub const CAPTURE_VID: u16 = 0x6666;

/// The product of a capture device.
pub const CAPTURE_PID: u16 = 0x6620;

/// Digits of a serial number.
pub const SERIAL_SIZE: usize = 14;

/// Why a command line or a firmware file is refused.
pub enum CliError {
    /// No speed has this name.
    Speed { name: String },
    /// No trigger has this name.
    Trigger { name: String },
    /// The firmware has no place for the serial number.
    NoPlaceholder,
}

impl CliError {
    /// The error in words.
    pub open spec fn text(&self) -> Seq<char> {
        match self {
            CliError::Speed { name } => "unrecognized capture speed: '"@ + name@ + "'"@,
            CliError::Trigger { name } => "unrecognized capture trigger: '"@ + name@ + "'"@,
            CliError::NoPlaceholder => "provided binary does not include a serial number placeholder"@,
        }
    }

    /// The error in words.
    pub fn message(&self) -> (s: String)
        ensures
            s@ == self.text(),
    {
        match self {
            CliError::Speed { name } => {
                let mut s = "unrecognized capture speed: '".to_owned();
                s.append(name.as_str());
                s.append("'");
                s
            },
            CliError::Trigger { name } => {
                let mut s = "unrecognized capture trigger: '".to_owned();
                s.append(name.as_str());
                s.append("'");
                s
            },
            CliError::NoPlaceholder => "provided binary does not include a serial number placeholder".to_owned(),
        }
    }
}

/// The speed of a name; full speed, where none is given.
pub open spec fn speed_named(name: Option<Seq<char>>) -> Option<CaptureSpeed> {
    if name is None || name->0 == "fs"@ {
        Some(CaptureSpeed::FullSpeed)
    } else if name->0 == "ls"@ {
        Some(CaptureSpeed::LowSpeed)
    } else if name->0 == "hs"@ {
        Some(CaptureSpeed::HighSpeed)
    } else {
        None
    }
}

/// The trigger of a name; disabled, where none is given.
pub open spec fn trigger_named(name: Option<Seq<char>>) -> Option<CaptureTrigger> {
    if name is None || name->0 == "disabled"@ {
        Some(CaptureTrigger::Disabled)
    } else if name->0 == "low"@ {
        Some(CaptureTrigger::Low)
    } else if name->0 == "high"@ {
        Some(CaptureTrigger::High)
    } else if name->0 == "falling"@ {
        Some(CaptureTrigger::Falling)
    } else if name->0 == "rising"@ {
        Some(CaptureTrigger::Rising)
    } else {
        None
    }
}

/// What is refused as the name of a speed.
pub open spec fn is_speed_error(e: CliError, name: Option<Seq<char>>) -> bool {
    e matches CliError::Speed { name: n } && name == Some(n@)
}

/// What is refused as the name of a trigger.
pub open spec fn is_trigger_error(e: CliError, name: Option<Seq<char>>) -> bool {
    e matches CliError::Trigger { name: n } && name == Some(n@)
}

/// The speed of a name.
pub fn parse_speed(s: Option<&str>) -> (r: Result<CaptureSpeed, CliError>)
    ensures
        match r {
            Ok(speed) => speed_named(text::optional(s)) == Some(speed),
            Err(e) => speed_named(text::optional(s)) is None && is_speed_error(
                e,
                text::optional(s),
            ),
        },
{
    match s {
        None => Ok(CaptureSpeed::FullSpeed),
        Some(name) => if text::str_eq(name, "fs") {
            Ok(CaptureSpeed::FullSpeed)
        } else if text::str_eq(name, "ls") {
            Ok(CaptureSpeed::LowSpeed)
        } else if text::str_eq(name, "hs") {
            Ok(CaptureSpeed::HighSpeed)
        } else {
            Err(CliError::Speed { name: name.to_owned() })
        },
    }
}

/// The trigger of a name.
pub fn parse_trigger(s: Option<&str>) -> (r: Result<CaptureTrigger, CliError>)
    ensures
        match r {
            Ok(trigger) => trigger_named(text::optional(s)) == Some(trigger),
            Err(e) => trigger_named(text::optional(s)) is None && is_trigger_error(
                e,
                text::optional(s),
            ),
        },
{
    match s {
        None => Ok(CaptureTrigger::Disabled),
        Some(name) => if text::str_eq(name, "disabled") {
            Ok(CaptureTrigger::Disabled)
        } else if text::str_eq(name, "low") {
            Ok(CaptureTrigger::Low)
        } else if text::str_eq(name, "high") {
            Ok(CaptureTrigger::High)
        } else if text::str_eq(name, "falling") {
            Ok(CaptureTrigger::Falling)
        } else if text::str_eq(name, "rising") {
            Ok(CaptureTrigger::Rising)
        } else {
            Err(CliError::Trigger { name: name.to_owned() })
        },
    }
}

/// The options of the command line, those of Wireshark's queries apart.
pub struct Options {
    pub speed: Option<String>,
    pub trigger: Option<String>,
    pub limit: Option<i64>,
    pub fold: bool,
    pub capture: bool,
    pub fifo: Option<String>,
    pub test: bool,
    pub mcu_sram: Option<String>,
    pub mcu_eeprom: Option<String>,
    pub fpga_sram: Option<String>,
    pub fpga_flash: Option<String>,
    pub fpga_erase: bool,
}

/// The one thing that the program does.
pub enum Command {
    /// Capture to a file.
    Capture { fifo: String, speed: CaptureSpeed, trigger: CaptureTrigger, limit: i64, fold: bool },
    /// Measure the transfer rate.
    Test,
    /// Load firmware into the memory of a microcontroller that has none.
    McuSram { name: String },
    /// Write firmware to the EEPROM that the microcontroller boots from.
    McuEeprom { name: String },
    /// Load a bitstream into the FPGA.
    FpgaSram { name: String },
    /// Write a bitstream to the flash memory of the FPGA.
    FpgaFlash { name: String },
    /// Erase the flash memory of the FPGA.
    FpgaErase,
    /// Nothing was asked for.
    Nothing,
}

/// The characters of an option that may be absent.
pub open spec fn given(s: Option<String>) -> Option<Seq<char>> {
    match s {
        Some(s) => Some(s@),
        None => None,
    }
}

/// The command that the options ask for: of several, the one that comes first here. A capture
/// needs a file to write to. Without a limit, the capture goes on for ever.
pub open spec fn requested(
    o: Options,
    speed: CaptureSpeed,
    trigger: CaptureTrigger,
) -> Command {
    if o.capture && o.fifo is Some {
        Command::Capture {
            fifo: o.fifo->0,
            speed,
            trigger,
            limit: if o.limit is Some {
                o.limit->0
            } else {
                -1i64
            },
            fold: o.fold,
        }
    } else if o.test {
        Command::Test
    } else if o.mcu_sram is Some {
        Command::McuSram { name: o.mcu_sram->0 }
    } else if o.mcu_eeprom is Some {
        Command::McuEeprom { name: o.mcu_eeprom->0 }
    } else if o.fpga_sram is Some {
        Command::FpgaSram { name: o.fpga_sram->0 }
    } else if o.fpga_flash is Some {
        Command::FpgaFlash { name: o.fpga_flash->0 }
    } else if o.fpga_erase {
        Command::FpgaErase
    } else {
        Command::Nothing
    }
}

fn as_text(s: &Option<String>) -> (r: Option<&str>)
    ensures
        text::optional(r) == given(*s),
{
    match s {
        Some(s) => Some(s.as_str()),
        None => None,
    }
}

impl Options {
    /// What the options ask for. The speed and the trigger must have names, whatever is asked
    /// for; that of the speed is looked at first.
    pub fn command(self) -> (r: Result<Command, CliError>)
        ensures
            match (speed_named(given(self.speed)), trigger_named(given(self.trigger))) {
                (Some(speed), Some(trigger)) => r == Ok::<Command, CliError>(
                    requested(self, speed, trigger),
                ),
                (None, _) => r is Err && is_speed_error(r->Err_0, given(self.speed)),
                (Some(_), None) => r is Err && is_trigger_error(r->Err_0, given(self.trigger)),
            },
    {
        let speed = match parse_speed(as_text(&self.speed)) {
            Ok(speed) => speed,
            Err(e) => {
                return Err(e);
            },
        };
        let trigger = match parse_trigger(as_text(&self.trigger)) {
            Ok(trigger) => trigger,
            Err(e) => {
                return Err(e);
            },
        };
        let limit: i64 = match self.limit {
            Some(limit) => limit,
            None => -1,
        };
        if self.capture {
            if let Some(fifo) = self.fifo {
                return Ok(Command::Capture { fifo, speed, trigger, limit, fold: self.fold });
            }
        }
        if self.test {
            return Ok(Command::Test);
        }
        if let Some(name) = self.mcu_sram {
            return Ok(Command::McuSram { name });
        }
        if let Some(name) = self.mcu_eeprom {
            return Ok(Command::McuEeprom { name });
        }
        if let Some(name) = self.fpga_sram {
            return Ok(Command::FpgaSram { name });
        }
        if let Some(name) = self.fpga_flash {
            return Ok(Command::FpgaFlash { name });
        }
        if self.fpga_erase {
            return Ok(Command::FpgaErase);
        }
        Ok(Command::Nothing)
    }
}

/// One link in the chain of causes of an error.
#[derive(Clone, Copy, PartialEq, Eq, Structural, Debug)]
pub enum Cause {
    /// The reader has closed the pipe.
    BrokenPipe,
    /// Anything else.
    Other,
}

/// Whether an error comes from a reader that has closed the pipe: that is how Wireshark ends a
/// capture.
pub fn is_broken_pipe(chain: &[Cause]) -> (r: bool)
    ensures
        r == chain@.contains(Cause::BrokenPipe),
{
    let mut i: usize = 0;
    while i < chain.len()
        invariant
            i <= chain@.len(),
            forall|k: int| 0 <= k < i ==> chain@[k] != Cause::BrokenPipe,
        decreases chain@.len() - i,
    {
        if chain[i] == Cause::BrokenPipe {
            assert(chain@.contains(chain@[i as int]));
            return true;
        }
        i += 1;
    }
    false
}

/// The serial number of a device: the low 56 bits of the trace number of its FPGA.
pub open spec fn serial_number(traceid: u64) -> Seq<char> {
    text::hex_fixed(traceid as nat, SERIAL_SIZE as nat)
}

/// What stands in a firmware file in place of the serial number.
pub open spec fn placeholder() -> Seq<u8> {
    encode_utf8("[-----SN-----]"@)
}

/// A firmware file with `serial` at `pos`.
pub open spec fn with_serial(data: Seq<u8>, pos: int, serial: Seq<char>) -> Seq<u8> {
    data.take(pos) + encode_utf8(serial) + data.skip(pos + SERIAL_SIZE)
}

/// Hexadecimal digits take one byte each.
proof fn lemma_hex_fixed_bytes(n: nat, width: nat)
    ensures
        text::hex_fixed(n, width).len() == width,
        is_ascii_chars(text::hex_fixed(n, width)),
    decreases width,
{
    if width > 0 {
        lemma_hex_fixed_bytes(n / 16, (width - 1) as nat);
    }
}

/// Writes the serial number of a device over the first placeholder in its firmware.
pub fn embed_serial(data: &mut Vec<u8>, traceid: u64) -> (r: Result<String, CliError>)
    ensures
        match (r, jed::first_occurrence(old(data)@, placeholder())) {
            (Ok(serial), Some(pos)) => {
                &&& serial@ == serial_number(traceid)
                &&& final(data)@ == with_serial(old(data)@, pos, serial_number(traceid))
            },
            (Err(e), None) => {
                &&& e == CliError::NoPlaceholder
                &&& final(data)@ == old(data)@
            },
            _ => false,
        },
{
    proof {
        reveal_strlit("[-----SN-----]");
        is_ascii_chars_encode_utf8("[-----SN-----]"@);
        lemma_hex_fixed_bytes(traceid as nat, SERIAL_SIZE as nat);
        is_ascii_chars_encode_utf8(serial_number(traceid));
    }
    match jed::find_bytes(data.as_slice(), "[-----SN-----]".as_bytes()) {
        None => Err(CliError::NoPlaceholder),
        Some(pos) => {
            let serial = text::hex_fixed_string(traceid, SERIAL_SIZE);
            let digits = serial.as_str().as_bytes();
            let ghost start = data@;
            let len = data.len();
            let mut i: usize = 0;
            while i < SERIAL_SIZE
                invariant
                    i <= SERIAL_SIZE,
                    digits@.len() == SERIAL_SIZE,
                    data@.len() == start.len() == len,
                    pos + SERIAL_SIZE <= len,
                    data@ =~= start.take(pos as int) + digits@.take(i as int) + start.skip(pos + i),
                decreases SERIAL_SIZE - i,
            {
                data.set(pos + i, digits[i]);
                i += 1;
            }
            assert(digits@.take(i as int) =~= digits@);
            Ok(serial)
        },
    }
}

} // verus!
