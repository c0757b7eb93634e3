# usb_sniffer

Host software for an FPGA-based USB sniffer, verified with Verus.

The hardware sends what it sees on the bus as a stream of small frames. The library turns that
stream into a pcapng file for Wireshark, and prepares everything that the hardware has to be told:
the start of a capture, a transfer rate test, new firmware for its microcontroller, and new
configurations for its FPGA.

## Layout

- `src/` is the library. Every function in it is verified.
  - `capture` is the state machine of a capture. `model` describes it mathematically; `pcapng`
    describes the file.
  - `extcap` answers Wireshark's queries, and `cli` interprets the command line.
  - `usb`, `jtag`, `fpga`, `flash`, `jed` and `fx2lp` say what is to be done with the hardware.
  - `laws` states what holds across these modules.
- `app/` is the command line tool. It performs the USB transfers and writes the file.
- `tests/` runs the library, partly against simulated hardware.

## How the library talks to the hardware

The library performs no transfers. It collects `Action`s in a `UsbDevice`, and the program performs
them in order. Where something has to be read, the library returns a session; the program hands each
reply to the session, which says what comes next. So the contracts can say for every reply of the
device, also for a short or a wrong one, what is done about it.

## What is proved

- The records in the capture file are a function of the stream alone (`model`). They do not depend
  on the chunks in which it arrives, and everything is flushed at the end of each chunk.
- A packet is in the file byte for byte and with its time, unless it belongs to an empty frame and
  empty frames are to be folded.
- The file consists of well-formed blocks, from which the packets and messages can be read back.
- Firmware and configurations count as written only if everything was read back as it was written.
- JTAG clocks reach the FPGA in order, and leave its state machine where they should.
- Called as its contract asks, no function of the library panics or overflows.
