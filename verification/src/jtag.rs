//! JTAG: sequences of clocks, and how they reach the device.

use vstd::prelude::*;

use crate::usb;
use crate::usb::{Act, UsbDevice, MAX_COUNT_IN_JTAG_REQUEST};

verus! {

/// One clock: the level of TDI in bit 1, that of TMS in bit 0.
pub open spec fn clock(tdi: u8, tms: u8) -> u8 {
    (2 * tdi + tms) as u8
}

/// Bit `i` of a byte.
pub open spec fn bit(b: u8, i: int) -> u8 {
    (b >> (i as u8)) & 1
}

/// Clocks that keep the state machine where it is, outside of a shift state.
pub open spec fn idle(n: nat) -> Seq<u8> {
    Seq::new(n, |i: int| 0u8)
}

/// From any state to Test-Logic-Reset, then to Run-Test/Idle.
pub open spec fn reset_clocks() -> Seq<u8> {
    Seq::new(16, |i: int| 1u8).push(0)
}

/// An instruction, from Run-Test/Idle and back: through Shift-IR, lowest bit first, TMS high
/// with the last bit.
pub open spec fn ir_clocks(ir: u8) -> Seq<u8> {
    seq![1u8, 1, 0, 0] + Seq::new(
        8,
        |i: int|
            clock(
                bit(ir, i),
                if i == 7 {
                    1
                } else {
                    0
                },
            ),
    ) + seq![1u8, 0]
}

/// `size` bits of data, from Run-Test/Idle and back: through Shift-DR, lowest bit first, TMS
/// high with the last bit.
pub open spec fn dr_clocks(data: Seq<u8>, size: nat) -> Seq<u8> {
    seq![1u8, 0, 0] + Seq::new(
        size,
        |i: int|
            clock(
                bit(data[i / 8], i % 8),
                if i == size - 1 {
                    1
                } else {
                    0
                },
            ),
    ) + seq![1u8, 0]
}

/// All bits of data, highest bit first, TMS high with the last bit.
pub open spec fn burst_clocks(data: Seq<u8>) -> Seq<u8> {
    Seq::new(
        8 * data.len(),
        |i: int|
            clock(
                bit(data[i / 8], 7 - i % 8),
                if i == 8 * data.len() - 1 {
                    1
                } else {
                    0
                },
            ),
    )
}

/// Clocks in Shift-DR that read `size` bits, TMS high with the last bit.
pub open spec fn sample_clocks(size: nat) -> Seq<u8> {
    Seq::new(
        size,
        |i: int|
            if i == size - 1 {
                1u8
            } else {
                0u8
            },
    )
}

/// The clocks that wait to be sent, and what is to be done with the device.
pub struct Jtag {
    pub pending: Seq<u8>,
    pub bus: Seq<Act>,
}

impl Jtag {
    /// One more clock; as many as fit in a request are sent at once.
    pub open spec fn clk(self, c: u8) -> Jtag {
        let pending = self.pending.push(c);
        if pending.len() == MAX_COUNT_IN_JTAG_REQUEST {
            Jtag { pending: Seq::empty(), bus: self.bus.push(usb::jtag_out(pending)) }
        } else {
            Jtag { pending, ..self }
        }
    }

    /// More clocks.
    pub open spec fn clks(self, s: Seq<u8>) -> Jtag
        decreases s.len(),
    {
        if s.len() == 0 {
            self
        } else {
            self.clks(s.drop_last()).clk(s.last())
        }
    }

    /// The clocks that wait are sent.
    pub open spec fn sync(self) -> Jtag {
        if self.pending.len() > 0 {
            Jtag { pending: Seq::empty(), bus: self.bus.push(usb::jtag_out(self.pending)) }
        } else {
            self
        }
    }

    /// Something else is done with the device.
    pub open spec fn act(self, a: Act) -> Jtag {
        Jtag { bus: self.bus.push(a), ..self }
    }

    /// `size` bits of data are shifted out of the device and asked for.
    pub open spec fn read_dr(self, size: nat) -> Jtag {
        self.clks(seq![1u8, 0, 0]).sync().clks(sample_clocks(size)).sync().act(
            usb::jtag_in(size as int),
        )
    }

    /// From Exit1-DR back to Run-Test/Idle.
    pub open spec fn end_read(self) -> Jtag {
        self.clks(seq![1u8, 0])
    }
}

/// A clock after others.
pub broadcast proof fn lemma_clks_push(j: Jtag, s: Seq<u8>, c: u8)
    ensures
        #[trigger] j.clks(s).clk(c) == j.clks(s.push(c)),
{
    assert(s.push(c).drop_last() =~= s);
}

/// Fewer clocks wait than fit in a request.
pub broadcast proof fn lemma_clks_pending(j: Jtag, s: Seq<u8>)
    requires
        j.pending.len() < MAX_COUNT_IN_JTAG_REQUEST,
    ensures
        (#[trigger] j.clks(s)).pending.len() < MAX_COUNT_IN_JTAG_REQUEST,
    decreases s.len(),
{
    if s.len() > 0 {
        lemma_clks_pending(j, s.drop_last());
    }
}

/// What is known of clocks one after another.
pub broadcast group group_clks {
    lemma_clks_push,
    lemma_clks_pending,
}

/// Bit `i` of a byte.
fn get_bit(b: u8, i: usize) -> (r: u8)
    requires
        i < 8,
    ensures
        r == bit(b, i as int),
        r <= 1,
{
    let n = i as u8;
    assert((b >> n) & 1 <= 1) by (bit_vector);
    (b >> n) & 1
}

/// Collects JTAG clocks and sends them in as few requests as possible.
pub struct JtagState {
    buf: Vec<u8>,
}

impl JtagState {
    /// The clocks that wait to be sent.
    pub closed spec fn pending(&self) -> Seq<u8> {
        self.buf@
    }

    /// Fewer clocks wait than fit in a request.
    pub open spec fn wf(&self) -> bool {
        self.pending().len() < MAX_COUNT_IN_JTAG_REQUEST
    }

    /// The clocks that wait, and what is to be done with the device.
    pub open spec fn on(&self, device: &UsbDevice) -> Jtag {
        Jtag { pending: self.pending(), bus: device@ }
    }

    /// No clock waits.
    pub fn new() -> (r: Self)
        ensures
            r.pending() == Seq::<u8>::empty(),
            r.wf(),
    {
        JtagState { buf: Vec::new() }
    }

    /// One clock.
    pub fn clk(&mut self, device: &mut UsbDevice, tdi: u8, tms: u8)
        requires
            old(self).wf(),
            tdi <= 1,
            tms <= 1,
        ensures
            final(self).wf(),
            final(self).on(final(device)) == old(self).on(old(device)).clk(clock(tdi, tms)),
    {
        self.buf.push(2 * tdi + tms);
        if self.buf.len() == MAX_COUNT_IN_JTAG_REQUEST {
            self.sync(device);
        }
    }

    /// Sends the clocks that wait.
    pub fn sync(&mut self, device: &mut UsbDevice)
        requires
            old(self).pending().len() <= MAX_COUNT_IN_JTAG_REQUEST,
        ensures
            final(self).wf(),
            final(self).on(final(device)) == old(self).on(old(device)).sync(),
            final(self).pending() == Seq::<u8>::empty(),
    {
        if self.buf.len() > 0 {
            let count = self.buf.len();
            device.jtag_request(self.buf.as_slice(), count);
            assert(self.buf@.take(count as int) =~= self.buf@);
            self.buf.clear();
        }
    }

    /// Brings the state machine to Run-Test/Idle, from wherever it is.
    pub fn reset(&mut self, device: &mut UsbDevice)
        requires
            old(self).wf(),
        ensures
            final(self).wf(),
            final(self).on(final(device)) == old(self).on(old(device)).clks(reset_clocks()),
    {
        broadcast use group_clks;

        let ghost start = self.on(device);
        let mut i: usize = 0;
        assert(Seq::new(0, |k: int| 1u8) =~= Seq::empty());
        while i < 16
            invariant
                i <= 16,
                self.wf(),
                self.on(device) == start.clks(Seq::new(i as nat, |k: int| 1u8)),
            decreases 16 - i,
        {
            broadcast use group_clks;

            assert(Seq::new(i as nat, |k: int| 1u8).push(1) =~= Seq::new(
                (i + 1) as nat,
                |k: int| 1u8,
            ));
            self.clk(device, 0, 1);
            i += 1;
        }
        self.clk(device, 0, 0);
    }

    /// Loads an instruction.
    pub fn write_ir(&mut self, device: &mut UsbDevice, ir: u8)
        requires
            old(self).wf(),
        ensures
            final(self).wf(),
            final(self).on(final(device)) == old(self).on(old(device)).clks(ir_clocks(ir)),
    {
        broadcast use group_clks;

        let ghost start = self.on(device);
        let ghost head = seq![1u8, 1, 0, 0];
        let ghost all = Seq::new(
            8,
            |i: int|
                clock(
                    bit(ir, i),
                    if i == 7 {
                        1
                    } else {
                        0
                    },
                ),
        );
        assert(start.clks(Seq::empty()) == start);
        self.clk(device, 0, 1);  // Select-DR-Scan
        self.clk(device, 0, 1);  // Select-IR-Scan
        self.clk(device, 0, 0);  // Capture-IR
        self.clk(device, 0, 0);  // Shift-IR
        assert(Seq::<u8>::empty().push(1).push(1).push(0).push(0) =~= head + all.take(0));
        let mut i: usize = 0;
        while i < 8
            invariant
                i <= 8,
                self.wf(),
                all == Seq::new(
                    8,
                    |k: int|
                        clock(
                            bit(ir, k),
                            if k == 7 {
                                1
                            } else {
                                0
                            },
                        ),
                ),
                self.on(device) == start.clks(head + all.take(i as int)),
            decreases 8 - i,
        {
            broadcast use group_clks;

            assert((head + all.take(i as int)).push(all[i as int]) =~= head + all.take(i + 1));
            let tdi = get_bit(ir, i);
            self.clk(
                device,
                tdi,
                if i == 7 {
                    1
                } else {
                    0
                },
            );  // Exit1-IR after the last bit
            i += 1;
        }
        self.clk(device, 0, 1);  // Update-IR
        self.clk(device, 0, 0);  // Run-Test/Idle
        assert((head + all.take(8)).push(1).push(0) =~= ir_clocks(ir));
    }

    /// Shifts `size` bits of `data` into the device.
    pub fn write_dr(&mut self, device: &mut UsbDevice, data: &[u8], size: usize)
        requires
            old(self).wf(),
            size <= 8 * data@.len(),
        ensures
            final(self).wf(),
            final(self).on(final(device)) == old(self).on(old(device)).clks(
                dr_clocks(data@, size as nat),
            ),
    {
        broadcast use group_clks;

        let ghost start = self.on(device);
        let ghost head = seq![1u8, 0, 0];
        let ghost all = Seq::new(
            size as nat,
            |i: int|
                clock(
                    bit(data@[i / 8], i % 8),
                    if i == size - 1 {
                        1
                    } else {
                        0
                    },
                ),
        );
        self.begin_shift(device);
        assert(head =~= head + all.take(0));
        let mut i: usize = 0;
        while i < size
            invariant
                i <= size <= 8 * data@.len(),
                self.wf(),
                all == Seq::new(
                    size as nat,
                    |k: int|
                        clock(
                            bit(data@[k / 8], k % 8),
                            if k == size - 1 {
                                1
                            } else {
                                0
                            },
                        ),
                ),
                self.on(device) == start.clks(head + all.take(i as int)),
            decreases size - i,
        {
            broadcast use group_clks;

            assert((head + all.take(i as int)).push(all[i as int]) =~= head + all.take(i + 1));
            let tdi = get_bit(data[i / 8], i % 8);
            self.clk(
                device,
                tdi,
                if i == size - 1 {
                    1
                } else {
                    0
                },
            );  // Exit1-DR after the last bit
            i += 1;
        }
        self.clk(device, 0, 1);  // Update-DR
        self.clk(device, 0, 0);  // Run-Test/Idle
        assert((head + all.take(size as int)).push(1).push(0) =~= dr_clocks(data@, size as nat));
    }

    /// Shifts `size` bits out of the device and asks for them. The reply goes to
    /// `UsbDevice::jtag_samples`, and `end_read` must follow.
    pub fn read_dr(&mut self, device: &mut UsbDevice, size: usize)
        requires
            old(self).wf(),
            size <= MAX_COUNT_IN_JTAG_REQUEST,
        ensures
            final(self).wf(),
            final(self).on(final(device)) == old(self).on(old(device)).read_dr(size as nat),
            final(self).pending() == Seq::<u8>::empty(),
    {
        broadcast use group_clks;

        self.begin_shift(device);
        // What the device samples begins with the next request.
        self.sync(device);
        let ghost synced = self.on(device);
        let ghost all = sample_clocks(size as nat);
        assert(all.take(0) =~= Seq::empty());
        let mut i: usize = 0;
        while i < size
            invariant
                i <= size,
                self.wf(),
                all == sample_clocks(size as nat),
                self.on(device) == synced.clks(all.take(i as int)),
            decreases size - i,
        {
            broadcast use group_clks;

            assert(all.take(i as int).push(all[i as int]) =~= all.take(i + 1));
            self.clk(
                device,
                0,
                if i == size - 1 {
                    1
                } else {
                    0
                },
            );
            i += 1;
        }
        assert(all.take(size as int) =~= all);
        self.sync(device);
        device.jtag_response(size);
    }

    /// Goes to the state in which data is shifted.
    pub fn begin_shift(&mut self, device: &mut UsbDevice)
        requires
            old(self).wf(),
        ensures
            final(self).wf(),
            final(self).on(final(device)) == old(self).on(old(device)).clks(seq![1u8, 0, 0]),
    {
        broadcast use group_clks;

        assert(self.on(device).clks(Seq::empty()) == self.on(device));
        self.clk(device, 0, 1);  // Select-DR-Scan
        self.clk(device, 0, 0);  // Capture-DR
        self.clk(device, 0, 0);  // Shift-DR
        assert(Seq::<u8>::empty().push(1).push(0).push(0) =~= seq![1u8, 0, 0]);
    }

    /// Leaves the state in which data is shifted.
    pub fn end_read(&mut self, device: &mut UsbDevice)
        requires
            old(self).wf(),
        ensures
            final(self).wf(),
            final(self).on(final(device)) == old(self).on(old(device)).end_read(),
    {
        broadcast use group_clks;

        assert(self.on(device).clks(Seq::empty()) == self.on(device));
        self.clk(device, 0, 1);  // Update-DR
        self.clk(device, 0, 0);  // Run-Test/Idle
        assert(Seq::<u8>::empty().push(1).push(0) =~= seq![1u8, 0]);
    }

    /// Clocks that give the device time.
    pub fn run(&mut self, device: &mut UsbDevice, count: usize)
        requires
            old(self).wf(),
        ensures
            final(self).wf(),
            final(self).on(final(device)) == old(self).on(old(device)).clks(idle(count as nat)),
    {
        broadcast use group_clks;

        let ghost start = self.on(device);
        assert(idle(0) =~= Seq::empty());
        let mut i: usize = 0;
        while i < count
            invariant
                i <= count,
                self.wf(),
                self.on(device) == start.clks(idle(i as nat)),
            decreases count - i,
        {
            broadcast use group_clks;

            assert(idle(i as nat).push(0) =~= idle((i + 1) as nat));
            self.clk(device, 0, 0);
            i += 1;
        }
    }

    /// Shifts all of `data` into the device, highest bit first. The state machine is in Shift-DR
    /// before and in Exit1-DR after.
    pub fn burst(&mut self, device: &mut UsbDevice, data: &[u8])
        requires
            old(self).wf(),
        ensures
            final(self).wf(),
            final(self).on(final(device)) == old(self).on(old(device)).clks(burst_clocks(data@)),
    {
        broadcast use group_clks;

        let ghost start = self.on(device);
        let ghost all = burst_clocks(data@);
        assert(all.take(0) =~= Seq::empty());
        let mut i: usize = 0;
        while i < data.len()
            invariant
                i <= data@.len(),
                self.wf(),
                all == burst_clocks(data@),
                self.on(device) == start.clks(all.take(8 * i)),
            decreases data@.len() - i,
        {
            let mut j: usize = 0;
            while j < 8
                invariant
                    i < data@.len(),
                    j <= 8,
                    self.wf(),
                    all == burst_clocks(data@),
                    self.on(device) == start.clks(all.take(8 * i + j)),
                decreases 8 - j,
            {
                broadcast use group_clks;

                assert(all.take(8 * i + j).push(all[8 * i + j]) =~= all.take(8 * i + j + 1));
                let tdi = get_bit(data[i], 7 - j);
                self.clk(
                    device,
                    tdi,
                    if i == data.len() - 1 && j == 7 {
                        1
                    } else {
                        0
                    },
                );
                j += 1;
            }
            i += 1;
        }
        assert(all.take(8 * data@.len() as int) =~= all);
    }
}

} // verus!
