//! Controllers: named workers with persistent registers, expressed as
//! resumable bodies that the scheduler drives one step at a time.

use vstd::prelude::*;

use crate::pin::Pins;
use crate::xbus::XBus;

verus! {

/// Truncating division (rounding toward zero), as the Rust `/` operator
/// computes it on signed integers.
pub open spec fn tdiv(a: int, b: int) -> int {
    if a >= 0 {
        a / b
    } else {
        -((-a) / b)
    }
}

/// Truncating remainder (sign of the dividend), as the Rust `%` operator
/// computes it on signed integers.
pub open spec fn trem(a: int, b: int) -> int {
    a - b * tdiv(a, b)
}

/// The accumulator after `dgt(index)`: the chosen decimal digit of `acc`.
/// Index 0 is the ones digit, 1 the tens digit, 2 the hundreds digit; any
/// other index gives 0. Negative accumulators keep their sign on the digit.
pub open spec fn dgt_spec(acc: int, index: usize) -> int {
    if index == 0 {
        trem(acc, 10)
    } else if index == 1 {
        trem(tdiv(acc, 10), 10)
    } else if index == 2 {
        tdiv(acc, 100)
    } else {
        0
    }
}

/// The accumulator after `dst(index, value)`: `acc` with the chosen decimal
/// digit replaced by the ones digit of `value`. Any index other than 0, 1, 2
/// leaves `acc` unchanged.
pub open spec fn dst_spec(acc: int, index: usize, value: int) -> int {
    let digit = trem(value, 10);
    if index == 0 {
        tdiv(acc, 10) * 10 + digit
    } else if index == 1 {
        tdiv(acc, 100) * 100 + digit * 10 + trem(acc, 10)
    } else if index == 2 {
        digit * 100 + trem(acc, 100)
    } else {
        acc
    }
}

/// A controller's state that persists across repeated executions of its body.
#[derive(Clone, Copy, Debug)]
pub struct Regs {
    pub acc: i32,
    pub dat: i32,
}

impl Regs {
    /// Set `acc` to the specified digit of the current value of `acc`. Index 0
    /// is the ones digit, 1 is the tens digit, and 2 is the hundreds digit.
    pub fn dgt(&mut self, index: usize)
        ensures
            final(self).acc == dgt_spec(old(self).acc as int, index),
            final(self).dat == old(self).dat,
    {
        self.acc = if index == 0 {
            self.acc % 10
        } else if index == 1 {
            (self.acc / 10) % 10
        } else if index == 2 {
            self.acc / 100
        } else {
            0
        };
    }

    /// Set a single digit in the value of `acc`. If the given value is greater
    /// than 9, its ones digit is used. The index is specified as in [`Regs::dgt`].
    pub fn dst(&mut self, index: usize, value: i32)
        requires
            i32::MIN <= dst_spec(old(self).acc as int, index, value as int) <= i32::MAX,
        ensures
            final(self).acc == dst_spec(old(self).acc as int, index, value as int),
            final(self).dat == old(self).dat,
    {
        let acc: i64 = self.acc as i64;
        let digit: i64 = (value % 10) as i64;
        let r: i64 = if index == 0 {
            (acc / 10) * 10 + digit
        } else if index == 1 {
            (acc / 100) * 100 + digit * 10 + acc % 10
        } else if index == 2 {
            digit * 100 + acc % 100
        } else {
            acc
        };
        self.acc = r as i32;
    }
}

/// What a controller body learns when the scheduler resumes it.
#[derive(Clone, Copy, Debug)]
pub enum Event {
    /// The previous request completed: a timed sleep elapsed, a bus sleep saw
    /// a readable bus, a write was delivered, or a new body iteration begins.
    Woke,
    /// The previous bus read completed with this value.
    Value(i32),
}

/// What a controller body asks the scheduler to do next. Each request may
/// suspend the controller until its condition is met.
#[derive(Clone, Copy, Debug)]
pub enum Action {
    /// Park until the given number of timesteps has passed.
    Sleep(u32),
    /// Park until the bus has a readable value (a pending writer or a ready
    /// source). Every controller sleeping so wakes when the bus becomes
    /// readable, even though only one will consume the value.
    BusSleep(XBus),
    /// Read one value from the bus, parking until one is available.
    BusRead(XBus),
    /// Write one value to the bus, parking until something consumes it.
    BusWrite(XBus, i32),
    /// The body iteration finished without parking; run the next iteration at
    /// once. A body that only ever answers this never sleeps and is stopped by
    /// the scheduler's watchdog.
    Done,
}

/// A controller with code. Implementors supply the body; the scheduler owns
/// the registers and calls `execute` repeatedly, feeding each call the outcome
/// of the action the previous call returned.
pub trait Controller {
    /// The controller's name, used in diagnostics. It should be unique across
    /// the scheduler's set.
    fn name(&self) -> String;

    /// Run the body until it next needs the scheduler: return the action to
    /// perform. `event` reports how the previous action ended. The body may
    /// read and write simple pins freely through `pins`; it must not grow or
    /// shrink the bank (it has no way to), which is the one promise the
    /// scheduler relies on.
    fn execute(&mut self, regs: &mut Regs, pins: &mut Pins, event: Event) -> (act: Action)
        ensures
            final(pins)@.len() == old(pins)@.len(),
    ;
}

} // verus!
