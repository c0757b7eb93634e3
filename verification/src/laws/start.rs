//! How the capture hardware is set up.

use vstd::prelude::*;

use crate::capture;
use crate::capture::{CaptureSpeed, CaptureTrigger};
use crate::model::Model;
use crate::pcapng::Record;
use crate::usb;
use crate::usb::Act;

verus! {

/// The control bits of the capture hardware.
pub struct Controls {
    pub reset: bool,
    pub enable: bool,
    pub speed0: bool,
    pub speed1: bool,
    pub test: bool,
    /// What was left in the data endpoint has been thrown away since the reset began.
    pub emptied: bool,
}

/// What an action does to the control bits. A request has the number of the bit in the low four
/// bits of its value and what the bit is set to in the next one.
pub open spec fn obeys(c: Controls, act: Act) -> Controls {
    match act {
        Act::ControlOut { request, value, index, data } => {
            let bit = value as int % 16;
            let on = value as int / 16 == 1;
            if request != 0xd0 || index != 0 || data.len() != 0 || value >= 32 {
                c
            } else if bit == 0 {
                Controls { reset: on, emptied: c.emptied && c.reset, ..c }
            } else if bit == 1 {
                Controls { enable: on, ..c }
            } else if bit == 2 {
                Controls { speed0: on, ..c }
            } else if bit == 3 {
                Controls { speed1: on, ..c }
            } else if bit == 4 {
                Controls { test: on, ..c }
            } else {
                c
            }
        },
        Act::Drain { attempts, size, timeout_ms } => Controls {
            emptied: attempts == 100 && size == 512 && timeout_ms == 20,
            ..c
        },
        _ => c,
    }
}

/// The control bits after some actions.
pub open spec fn after(c: Controls, acts: Seq<Act>) -> Controls
    decreases acts.len(),
{
    if acts.len() == 0 {
        c
    } else {
        obeys(after(c, acts.drop_last()), acts.last())
    }
}

/// Whether an action may be done: the hardware is still, that is in reset and off, while its speed
/// or its test mode is set or its data is thrown away, and it is switched on after the reset.
pub open spec fn allowed(c: Controls, act: Act) -> bool {
    let n = obeys(c, act);
    let still = c.reset && !c.enable;
    &&& act matches Act::ControlOut { request, value, index, data } ==> {
        &&& request == 0xd0
        &&& index == 0
        &&& data.len() == 0
        &&& value < 32
        &&& 2 <= value as int % 16 ==> still && value as int % 16 <= 4
    }
    &&& act is Drain ==> still
    &&& n.enable && !c.enable ==> !c.reset && c.emptied
    &&& c.reset && !n.reset ==> c.emptied
}

/// All actions may be done.
pub open spec fn all_allowed(c: Controls, acts: Seq<Act>) -> bool
    decreases acts.len(),
{
    acts.len() == 0 || (all_allowed(c, acts.drop_last()) && allowed(
        after(c, acts.drop_last()),
        acts.last(),
    ))
}

/// The action that sets a control bit.
pub open spec fn sets(act: Act, bit: int, on: bool) -> bool {
    act matches Act::ControlOut { request, value, index, data } && request == 0xd0 && value == bit
        + (if on {
        16int
    } else {
        0int
    }) && index == 0 && data.len() == 0
}

/// A control bit is set by its number and its value.
pub proof fn law_set_control_bit(index: u8, on: bool)
    requires
        index < 16,
    ensures
        sets(usb::set_ctrl(index, on), index as int, on),
{
    let i = index as u16;
    assert(i < 16 ==> i | 16u16 == i + 16 && i | 0u16 == i) by (bit_vector);
}

broadcast proof fn lemma_push(c: Controls, acts: Seq<Act>, act: Act)
    ensures
        #![trigger after(c, acts.push(act))]
        #![trigger all_allowed(c, acts.push(act))]
        after(c, acts.push(act)) == obeys(after(c, acts), act),
        all_allowed(c, acts.push(act)) == (all_allowed(c, acts) && allowed(after(c, acts), act)),
{
    assert(acts.push(act).drop_last() =~= acts);
}

proof fn lemma_controls()
    ensures
        forall|on: bool| sets(#[trigger] usb::set_ctrl(0, on), 0, on),
        forall|on: bool| sets(#[trigger] usb::set_ctrl(1, on), 1, on),
        forall|on: bool| sets(#[trigger] usb::set_ctrl(2, on), 2, on),
        forall|on: bool| sets(#[trigger] usb::set_ctrl(3, on), 3, on),
        forall|on: bool| sets(#[trigger] usb::set_ctrl(4, on), 4, on),
{
    assert forall|on: bool| sets(#[trigger] usb::set_ctrl(0, on), 0, on) by {
        law_set_control_bit(0, on);
    }
    assert forall|on: bool| sets(#[trigger] usb::set_ctrl(1, on), 1, on) by {
        law_set_control_bit(1, on);
    }
    assert forall|on: bool| sets(#[trigger] usb::set_ctrl(2, on), 2, on) by {
        law_set_control_bit(2, on);
    }
    assert forall|on: bool| sets(#[trigger] usb::set_ctrl(3, on), 3, on) by {
        law_set_control_bit(3, on);
    }
    assert forall|on: bool| sets(#[trigger] usb::set_ctrl(4, on), 4, on) by {
        law_set_control_bit(4, on);
    }
}

/// The number by which the hardware knows a speed.
pub open spec fn number(speed: CaptureSpeed) -> int {
    match speed {
        CaptureSpeed::LowSpeed => 0,
        CaptureSpeed::FullSpeed => 1,
        CaptureSpeed::HighSpeed => 2,
        CaptureSpeed::Reset => 3,
    }
}

proof fn lemma_initialised(c: Controls)
    ensures
        ({
            let n = after(c, usb::init_acts());
            &&& all_allowed(c, usb::init_acts())
            &&& n.reset
            &&& !n.enable
            &&& !n.speed0
            &&& !n.speed1
            &&& !n.test
        }),
{
    broadcast use lemma_push;

    lemma_controls();
    let s0 = Seq::<Act>::empty();
    let s1 = s0.push(usb::set_ctrl(0, true));
    let s2 = s1.push(usb::set_ctrl(1, false));
    let s3 = s2.push(usb::set_ctrl(4, false));
    let s4 = s3.push(usb::set_ctrl(2, true));
    let s5 = s4.push(usb::set_ctrl(2, false));
    let s6 = s5.push(usb::set_ctrl(3, true));
    let s7 = s6.push(usb::set_ctrl(3, false));
    assert(usb::init_acts() =~= s7);
    assert(after(c, s0) == c);
    assert(all_allowed(c, s0));
    assert(after(c, s1).reset);
    assert(all_allowed(c, s1));
    assert(after(c, s2).reset && !after(c, s2).enable);
    assert(all_allowed(c, s2));
    assert(all_allowed(c, s3));
    assert(all_allowed(c, s4));
    assert(all_allowed(c, s5));
    assert(all_allowed(c, s6));
    assert(all_allowed(c, s7));
}

proof fn lemma_join(c: Controls, a: Seq<Act>, b: Seq<Act>)
    ensures
        after(c, a + b) == after(after(c, a), b),
        all_allowed(c, a + b) == (all_allowed(c, a) && all_allowed(after(c, a), b)),
    decreases b.len(),
{
    if b.len() == 0 {
        assert(a + b =~= a);
    } else {
        lemma_join(c, a, b.drop_last());
        assert((a + b).drop_last() =~= a + b.drop_last());
    }
}

/// Whatever the control bits were before, the start of a capture leaves the hardware on and out of
/// reset, out of the test mode, at the speed that was asked for, and with nothing old in its data
/// endpoint. The speed is set while the hardware is in reset and off.
pub proof fn law_capture_started(c: Controls, speed: CaptureSpeed)
    ensures
        ({
            let acts = capture::start_acts(speed);
            let n = after(c, acts);
            let s0: int = if n.speed0 {
                1
            } else {
                0
            };
            let s1: int = if n.speed1 {
                1
            } else {
                0
            };
            &&& all_allowed(c, acts)
            &&& !n.reset
            &&& n.enable
            &&& !n.test
            &&& n.emptied
            &&& s0 + 2 * s1 == number(speed)
        }),
{
    broadcast use lemma_push;

    lemma_controls();
    lemma_initialised(c);
    let rest = capture::start_acts(speed).skip(7);
    assert(capture::start_acts(speed) =~= usb::init_acts() + rest);
    let n = after(c, usb::init_acts());
    let s0 = Seq::<Act>::empty();
    let s1 = s0.push(usb::set_ctrl(1, false));
    let s2 = s1.push(usb::set_ctrl(0, true));
    let s3 = s2.push(usb::drain());
    let s4 = s3.push(usb::set_ctrl(2, number(speed) % 2 == 1));
    let s5 = s4.push(usb::set_ctrl(3, number(speed) / 2 == 1));
    let s6 = s5.push(usb::set_ctrl(0, false));
    let s7 = s6.push(usb::set_ctrl(1, true));
    assert(rest =~= s7);
    assert(after(n, s0) == n);
    assert(all_allowed(n, s2));
    assert(all_allowed(n, s3) && after(n, s3).emptied);
    assert(all_allowed(n, s4));
    assert(all_allowed(n, s5));
    assert(all_allowed(n, s6));
    assert(all_allowed(n, s7));
    lemma_join(c, usb::init_acts(), rest);
}

/// Where the speed is set, the hardware is in reset and off.
pub proof fn law_speed_set_in_reset(c: Controls, acts: Seq<Act>, i: int, on: bool)
    requires
        all_allowed(c, acts),
        0 <= i < acts.len(),
        sets(acts[i], 2, on) || sets(acts[i], 3, on) || sets(acts[i], 4, on),
    ensures
        after(c, acts.take(i)).reset,
        !after(c, acts.take(i)).enable,
    decreases acts.len(),
{
    if i == acts.len() - 1 {
        assert(acts.take(i) =~= acts.drop_last());
    } else {
        law_speed_set_in_reset(c, acts.drop_last(), i, on);
        assert(acts.drop_last().take(i) =~= acts.take(i));
    }
}

/// Whatever the control bits were before, the start of a speed test leaves the hardware out of
/// reset, in the test mode, not capturing, and with nothing old in its data endpoint.
pub proof fn law_speed_test_started(c: Controls)
    ensures
        ({
            let acts = usb::speed_test_acts();
            let n = after(c, acts);
            &&& all_allowed(c, acts)
            &&& !n.reset
            &&& !n.enable
            &&& n.test
            &&& n.emptied
            &&& !n.speed0
            &&& !n.speed1
        }),
{
    broadcast use lemma_push;

    lemma_controls();
    lemma_initialised(c);
    let rest = usb::speed_test_acts().skip(7);
    assert(usb::speed_test_acts() =~= usb::init_acts() + rest);
    let n = after(c, usb::init_acts());
    let s0 = Seq::<Act>::empty();
    let s1 = s0.push(usb::set_ctrl(0, true));
    let s2 = s1.push(usb::set_ctrl(4, true));
    let s3 = s2.push(usb::drain());
    let s4 = s3.push(usb::set_ctrl(0, false));
    assert(rest =~= s4);
    assert(after(n, s0) == n);
    assert(all_allowed(n, s2));
    assert(all_allowed(n, s3) && after(n, s3).emptied);
    assert(all_allowed(n, s4));
    lemma_join(c, usb::init_acts(), rest);
}

/// The file of a capture begins with what a reader needs: one interface for packets, whose link
/// type says at which speed they were captured, and one for messages.
pub proof fn law_capture_file_begins(
    speed: CaptureSpeed,
    trigger: CaptureTrigger,
    fold_empty: bool,
    limit: int,
    log: Seq<Record>,
)
    ensures
        ({
            let m = Model::started(speed, trigger, fold_empty, limit, log);
            let link_type: int = match speed {
                CaptureSpeed::LowSpeed => 293,
                CaptureSpeed::FullSpeed => 294,
                CaptureSpeed::HighSpeed => 295,
                CaptureSpeed::Reset => 288,
            };
            &&& m.log == log + seq![
                Record::Section,
                Record::Interface {
                    link_type,
                    name: "usb"@,
                    description: "Hardware USB interface"@,
                },
                Record::Interface {
                    link_type: 252,
                    name: "info"@,
                    description: "Out of band information"@,
                },
                Record::Text {
                    ts: 0,
                    text: if trigger == CaptureTrigger::Disabled {
                        "Starting capture"@
                    } else {
                        "Waiting for a trigger"@
                    },
                },
                Record::Flush,
            ]
            &&& m.enabled == (trigger == CaptureTrigger::Disabled)
            &&& m.speed == speed
            &&& m.trigger == trigger
            &&& m.fold_empty == fold_empty
            &&& m.limit == limit
            &&& m.fold.len() == 0
            &&& m.fold_count == 0
            &&& m.saved_ls == -1
            &&& m.frame.len() == 0
            &&& m.stage is Header
            &&& !m.stopped
            &&& m.ts == 0
            &&& m.ts_int == 0
            &&& m.toggle == 0
            &&& m.vbus == -1
            &&& m.trigger_in == -1
            &&& m.detected_speed == -1
            &&& m.ls == -1
            &&& m.last_ts == 0
        }),
{
    reveal(Model::capture_info);
    reveal(Model::stop_folding);
}

} // verus!
