//! The queries by which Wireshark learns what the program can capture.
//!
//! Wireshark runs the program several times before a capture, each time with another query, and
//! reads the answers from its standard output.

use vstd::prelude::*;
use vstd::string::*;

use crate::text;

verus! {

/// The name of the one interface.
pub const INTERFACE_NAME: &'static str = "usb_sniffer";

/// A line of the answer.
pub enum Line {
    /// For the standard output.
    Answer { text: &'static str },
    /// For the standard error.
    Complaint { text: &'static str },
}

/// A line in mathematical terms.
pub enum Printed {
    Answer { text: Seq<char> },
    Complaint { text: Seq<char> },
}

impl View for Line {
    type V = Printed;

    open spec fn view(&self) -> Printed {
        match self {
            Line::Answer { text } => Printed::Answer { text: text@ },
            Line::Complaint { text } => Printed::Complaint { text: text@ },
        }
    }
}

/// The lines in mathematical terms.
pub open spec fn printed(lines: Seq<Line>) -> Seq<Printed> {
    lines.map_values(|l: Line| l@)
}

/// A line for the standard output.
pub open spec fn answer(text: Seq<char>) -> Printed {
    Printed::Answer { text }
}

/// The options of a capture, as Wireshark offers them to the user.
pub open spec fn config() -> Seq<Printed> {
    seq![
        answer(
            "arg {number=0}{call=--speed}{display=Capture Speed}{tooltip=USB capture speed}{type=selector}"@,
        ),
        answer("value {arg=0}{value=ls}{display=Low-Speed}{default=false}"@),
        answer("value {arg=0}{value=fs}{display=Full-Speed}{default=true}"@),
        answer("value {arg=0}{value=hs}{display=High-Speed}{default=false}"@),
        answer(
            "arg {number=1}{call=--fold}{display=Fold empty frames}{tooltip=Fold frames that have no data or errors}{type=boolflag}"@,
        ),
        answer(
            "arg {number=2}{call=--trigger}{display=Capture Trigger}{tooltip=Condition used to start the capture}{type=selector}"@,
        ),
        answer("value {arg=2}{value=disabled}{display=Disabled}{default=true}"@),
        answer("value {arg=2}{value=low}{display=Low}{default=false}"@),
        answer("value {arg=2}{value=high}{display=High}{default=false}"@),
        answer("value {arg=2}{value=falling}{display=Falling}{default=false}"@),
        answer("value {arg=2}{value=rising}{display=Rising}{default=false}"@),
        answer(
            "arg {number=3}{call=--limit}{display=Capture Limit}{tooltip=Limit the number of captured packets (0 for unlimited)}{type=integer}{range=0,10000000}{default=0}"@,
        ),
    ]
}

/// The answer to the version that Wireshark announces.
pub open spec fn version_reply(version: Option<Seq<char>>) -> Seq<Printed> {
    match version {
        None => Seq::empty(),
        Some(v) => if v == "4.0"@ {
            seq![
                answer(
                    "extcap {version=1.0}{help=https://github.com/ataradov/usb-sniffer}{display=USB Sniffer}"@,
                ),
            ]
        } else {
            seq![Printed::Complaint { text: "unsupported extcap version"@ }]
        },
    }
}

/// The answer to the query itself; none, where there is no query and the program has other work.
pub open spec fn query_reply(
    interfaces: bool,
    interface: Option<Seq<char>>,
    dlts: bool,
    config_query: bool,
) -> Option<Seq<Printed>> {
    if interfaces {
        Some(seq![answer("interface {value=usb_sniffer}{display=USB Sniffer}"@)])
    } else if interface is Some && interface->0 != INTERFACE_NAME@ {
        Some(seq![Printed::Complaint { text: "invalid interface, expected usb_sniffer"@ }])
    } else if dlts {
        Some(seq![answer("dlt {number=288}{name=USB}{display=USB}"@)])
    } else if config_query {
        Some(config())
    } else {
        None
    }
}

/// Appends the answer to a query to `out`. Whether there was a query: if so, the program is done.
pub fn handle_extcap(
    out: &mut Vec<Line>,
    extcap_version: Option<&str>,
    extcap_interfaces: bool,
    extcap_interface: Option<&str>,
    extcap_dlts: bool,
    extcap_config: bool,
) -> (r: bool)
    ensures
        ({
            let version = version_reply(text::optional(extcap_version));
            let query = query_reply(
                extcap_interfaces,
                text::optional(extcap_interface),
                extcap_dlts,
                extcap_config,
            );
            &&& r == query is Some
            &&& printed(final(out)@) == printed(old(out)@) + version + (if r {
                query->0
            } else {
                Seq::empty()
            })
        }),
{
    let ghost version = version_reply(text::optional(extcap_version));
    if let Some(version) = extcap_version {
        if text::str_eq(version, "4.0") {
            out.push(
                Line::Answer {
                    text: "extcap {version=1.0}{help=https://github.com/ataradov/usb-sniffer}{display=USB Sniffer}",
                },
            );
        } else {
            out.push(Line::Complaint { text: "unsupported extcap version" });
        }
    }
    assert(printed(out@) =~= printed(old(out)@) + version);
    let ghost before = printed(out@);
    if extcap_interfaces {
        out.push(Line::Answer { text: "interface {value=usb_sniffer}{display=USB Sniffer}" });
        assert(printed(out@) =~= before + seq![
            answer("interface {value=usb_sniffer}{display=USB Sniffer}"@),
        ]);
        return true;
    }
    if let Some(interface) = extcap_interface {
        if !text::str_eq(interface, INTERFACE_NAME) {
            out.push(Line::Complaint { text: "invalid interface, expected usb_sniffer" });
            assert(printed(out@) =~= before + seq![
                Printed::Complaint { text: "invalid interface, expected usb_sniffer"@ },
            ]);
            return true;
        }
    }
    if extcap_dlts {
        out.push(Line::Answer { text: "dlt {number=288}{name=USB}{display=USB}" });
        assert(printed(out@) =~= before + seq![
            answer("dlt {number=288}{name=USB}{display=USB}"@),
        ]);
        return true;
    }
    if extcap_config {
        push_config(out);
        return true;
    }
    assert(before =~= before + Seq::<Printed>::empty());
    false
}

fn push_config(out: &mut Vec<Line>)
    ensures
        printed(final(out)@) == printed(old(out)@) + config(),
{
    out.push(
        Line::Answer {
            text: "arg {number=0}{call=--speed}{display=Capture Speed}{tooltip=USB capture speed}{type=selector}",
        },
    );
    out.push(Line::Answer { text: "value {arg=0}{value=ls}{display=Low-Speed}{default=false}" });
    out.push(Line::Answer { text: "value {arg=0}{value=fs}{display=Full-Speed}{default=true}" });
    out.push(Line::Answer { text: "value {arg=0}{value=hs}{display=High-Speed}{default=false}" });
    out.push(
        Line::Answer {
            text: "arg {number=1}{call=--fold}{display=Fold empty frames}{tooltip=Fold frames that have no data or errors}{type=boolflag}",
        },
    );
    out.push(
        Line::Answer {
            text: "arg {number=2}{call=--trigger}{display=Capture Trigger}{tooltip=Condition used to start the capture}{type=selector}",
        },
    );
    out.push(Line::Answer { text: "value {arg=2}{value=disabled}{display=Disabled}{default=true}" });
    out.push(Line::Answer { text: "value {arg=2}{value=low}{display=Low}{default=false}" });
    out.push(Line::Answer { text: "value {arg=2}{value=high}{display=High}{default=false}" });
    out.push(Line::Answer { text: "value {arg=2}{value=falling}{display=Falling}{default=false}" });
    out.push(Line::Answer { text: "value {arg=2}{value=rising}{display=Rising}{default=false}" });
    out.push(
        Line::Answer {
            text: "arg {number=3}{call=--limit}{display=Capture Limit}{tooltip=Limit the number of captured packets (0 for unlimited)}{type=integer}{range=0,10000000}{default=0}",
        },
    );
    assert(printed(out@) =~= printed(old(out)@) + config());
}

} // verus!
