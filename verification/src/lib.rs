//! Capture of USB traffic with an FPGA-based sniffer.
//!
//! The hardware sends a stream of frames. `capture` turns the stream into a pcapng file that
//! Wireshark reads while it grows; `model` says what the file contains for any stream, and
//! `pcapng` how it is laid out. `extcap` answers the questions that Wireshark asks first.
//!
//! The other modules take care of the hardware itself: `usb` knows its requests, `jtag`, `fpga`
//! and `flash` configure the FPGA, and `fx2lp` loads firmware into the microcontroller. They
//! perform no transfers. What is to be done is collected in a `UsbDevice`, and whoever has the
//! real device performs it and hands the replies back.
//!
//! `laws` holds what can be said of several functions together.

pub mod capture;
pub mod cli;
pub mod endian;
pub mod extcap;
pub mod flash;
pub mod fpga;
pub mod fx2lp;
pub mod jed;
pub mod jtag;
pub mod laws;
pub mod messages;
pub mod model;
pub mod pcapng;
pub mod text;
pub mod usb;
