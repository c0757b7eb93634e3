//! What callers hold is what the contracts speak of.

use vstd::prelude::*;

use crate::capture::{CaptureState, Flow};
use crate::cli;
use crate::cli::CliError;
use crate::extcap;
use crate::extcap::{Line, Printed};
use crate::jed::JedFile;
use crate::model::Model;
use crate::pcapng::Record;
use crate::text;
use crate::usb;
use crate::usb::{Act, Action};

verus! {

/// An action is done with the values that it holds.
pub proof fn law_action(a: Action)
    ensures
        match a {
            Action::ControlOut { request, value, index, data } => a@ == (Act::ControlOut {
                request,
                value,
                index,
                data: data@,
            }),
            Action::ControlIn { request, value, index, length } => a@ == (Act::ControlIn {
                request,
                value,
                index,
                length,
            }),
            Action::Drain { attempts, size, timeout_ms } => a@ == (Act::Drain {
                attempts,
                size,
                timeout_ms,
            }),
            Action::Sleep { millis } => a@ == (Act::Sleep { millis }),
            Action::Print { text } => a@ == (Act::Print { text: text@ }),
        },
{
}

/// Actions are done one after another, none twice and none left out.
pub proof fn law_actions(actions: Seq<Action>)
    ensures
        usb::acts(actions).len() == actions.len(),
        forall|i: int| 0 <= i < actions.len() ==> #[trigger] usb::acts(actions)[i] == actions[i]@,
{
}

/// Lines are printed as they are, one after another.
pub proof fn law_lines(lines: Seq<Line>)
    ensures
        extcap::printed(lines).len() == lines.len(),
        forall|i: int|
            0 <= i < lines.len() ==> #[trigger] extcap::printed(lines)[i] == (match lines[i] {
                Line::Answer { text } => Printed::Answer { text: text@ },
                Line::Complaint { text } => Printed::Complaint { text: text@ },
            }),
{
}

/// A JED file is its three parts.
pub proof fn law_jed_file(file: JedFile)
    ensures
        file@.config == file.config@,
        file@.feature == file.feature@,
        file@.feabits == file.feabits@,
{
}

/// An option that is absent stays absent, and one that is given keeps its text.
pub proof fn law_optional(a: Option<&str>, b: Option<String>)
    ensures
        a is None <==> text::optional(a) is None,
        a is Some ==> text::optional(a) == Some(a->0@),
        b is None <==> cli::given(b) is None,
        b is Some ==> cli::given(b) == Some(b->0@),
{
}

/// A name is refused as what it is, and the message quotes it.
pub proof fn law_refused_names(e: CliError, name: Option<Seq<char>>)
    ensures
        cli::is_speed_error(e, name) <==> e is Speed && name == Some(e->Speed_name@),
        cli::is_trigger_error(e, name) <==> e is Trigger && name == Some(e->Trigger_name@),
        e is Speed ==> e.text() == "unrecognized capture speed: '"@ + e->Speed_name@ + "'"@,
        e is Trigger ==> e.text() == "unrecognized capture trigger: '"@ + e->Trigger_name@ + "'"@,
        e is NoPlaceholder ==> e.text()
            == "provided binary does not include a serial number placeholder"@,
{
}

/// A capture is over if and only if it says so, and its records are those of its file.
pub proof fn law_capture_flow(state: CaptureState, log: Seq<Record>, flow: Flow)
    ensures
        state.model(log, flow).log == log,
        state.model(log, flow).stopped <==> flow == Flow::Stop,
        state.model(log, flow) == (Model { log, stopped: flow == Flow::Stop, ..state.state() }),
{
}

} // verus!
