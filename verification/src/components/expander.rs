//! Digit expanders: the component that converts between XBus values and three
//! simple I/O pins, one pin per decimal digit.

use vstd::prelude::*;

use crate::board::Board;
use crate::pin::{Pins, SimplePin};
use crate::xbus::{BusView, Endpoint, XBus};

verus! {

/// The pins an expander is wired to. A missing pin is skipped on writes and
/// contributes 0 on reads. The hundreds digit goes to `p2`, the tens digit to
/// `p1`, the ones digit to `p0`.
#[derive(Clone, Copy)]
pub struct ExpanderConn {
    pub p0: Option<SimplePin>,
    pub p1: Option<SimplePin>,
    pub p2: Option<SimplePin>,
}

/// All pins of the connection lie inside a pin bank of the given length.
pub open spec fn conn_valid(e: ExpanderConn, pin_count: int) -> bool {
    &&& (e.p0 matches Some(p) ==> 0 <= p@ < pin_count)
    &&& (e.p1 matches Some(p) ==> 0 <= p@ < pin_count)
    &&& (e.p2 matches Some(p) ==> 0 <= p@ < pin_count)
}

/// The magnitude of a value; the expander ignores the sign.
pub open spec fn abs_val(v: int) -> int {
    if v < 0 {
        -v
    } else {
        v
    }
}

/// The level written to the pin for the given decimal place (2 is hundreds,
/// 1 is tens, 0 is ones): 100 when the place is occupied, 0 otherwise. The
/// hundreds pin is raised for any magnitude of 100 or more.
pub open spec fn pin_level(v: int, place: int) -> i32 {
    let a = abs_val(v);
    if place == 2 {
        if a >= 100 {
            100i32
        } else {
            0i32
        }
    } else if place == 1 {
        if a % 100 >= 10 {
            100i32
        } else {
            0i32
        }
    } else {
        if a % 10 >= 1 {
            100i32
        } else {
            0i32
        }
    }
}

/// The pin bank after an expander write of `v`: each connected pin is set to
/// its place's level, hundreds first, then tens, then ones.
pub open spec fn write_pins_spec(pins: Seq<i32>, e: ExpanderConn, v: int) -> Seq<i32> {
    let s2 = match e.p2 {
        Some(p) => pins.update(p@, pin_level(v, 2)),
        None => pins,
    };
    let s1 = match e.p1 {
        Some(p) => s2.update(p@, pin_level(v, 1)),
        None => s2,
    };
    match e.p0 {
        Some(p) => s1.update(p@, pin_level(v, 0)),
        None => s1,
    }
}

/// The digit an expander read derives from one pin: 1 when the pin reads 50
/// or more, 0 otherwise or when the pin is missing.
pub open spec fn bit_of(pins: Seq<i32>, p: Option<SimplePin>) -> int {
    match p {
        Some(pin) => if pins[pin@] >= 50 {
            1
        } else {
            0
        },
        None => 0,
    }
}

/// The value an expander read returns: one decimal digit per pin, each 0 or 1.
pub open spec fn read_value_spec(pins: Seq<i32>, e: ExpanderConn) -> int {
    100 * bit_of(pins, e.p2) + 10 * bit_of(pins, e.p1) + bit_of(pins, e.p0)
}

/// The bus a fresh expander is connected to: the expander is both its only
/// source and its only sink, and nobody is pending.
pub open spec fn expander_bus(id: usize) -> BusView {
    BusView {
        sources: seq![Endpoint::Expander(id)],
        sinks: seq![Endpoint::Expander(id)],
        readers: Seq::empty(),
        writers: Seq::empty(),
    }
}

/// Creates an expander on the board: the component that converts between XBus
/// I/O and three simple I/O pins.
///
/// When writing to the XBus, each simple pin is set to 100 if the
/// corresponding digit of the XBus value is nonzero, or 0 otherwise (`p2` is
/// the hundreds digit, `p1` the tens, `p0` the ones). The sign of the XBus
/// value is ignored. When reading from the XBus, each digit is 1 if the
/// corresponding pin's value is at least 50, or 0 otherwise.
///
/// This returns a single XBus acting as all of the component's XBus pins at
/// once, since they all behave identically.
pub fn new(
    board: &mut Board,
    p0: Option<SimplePin>,
    p1: Option<SimplePin>,
    p2: Option<SimplePin>,
) -> (r: XBus)
    requires
        conn_valid(ExpanderConn { p0, p1, p2 }, old(board)@.pins.len() as int),
    ensures
        r@ == old(board)@.buses.len(),
        final(board)@ == old(board)@.with_expander(ExpanderConn { p0, p1, p2 }).with_bus(
            expander_bus((old(board)@.expanders.len()) as usize),
        ),
{
    let conn = ExpanderConn { p0, p1, p2 };
    let id = board.add_expander(conn);
    let bus = XBus::new(board);
    board.connect_sink(bus, Endpoint::Expander(id));
    board.connect_source(bus, Endpoint::Expander(id));
    proof {
        assert(final(board)@ =~~= old(board)@.with_expander(conn).with_bus(
            expander_bus((old(board)@.expanders.len()) as usize),
        ));
    }
    bus
}

pub(crate) fn expander_read(e: &ExpanderConn, pins: &Pins) -> (r: i32)
    requires
        conn_valid(*e, pins@.len() as int),
    ensures
        r as int == read_value_spec(pins@, *e),
{
    let mut total: i32 = 0;
    match e.p2 {
        Some(p) => {
            if pins.read(p) >= 50 {
                total = total + 100;
            }
        },
        None => {},
    }
    match e.p1 {
        Some(p) => {
            if pins.read(p) >= 50 {
                total = total + 10;
            }
        },
        None => {},
    }
    match e.p0 {
        Some(p) => {
            if pins.read(p) >= 50 {
                total = total + 1;
            }
        },
        None => {},
    }
    total
}

pub(crate) fn expander_write(e: &ExpanderConn, pins: &mut Pins, v: i32)
    requires
        conn_valid(*e, old(pins)@.len() as int),
    ensures
        final(pins)@ == write_pins_spec(old(pins)@, *e, v as int),
{
    let a: i64 = if v < 0 {
        -(v as i64)
    } else {
        v as i64
    };
    match e.p2 {
        Some(p) => {
            pins.write(p, if a >= 100 {
                100
            } else {
                0
            });
        },
        None => {},
    }
    match e.p1 {
        Some(p) => {
            pins.write(p, if a % 100 >= 10 {
                100
            } else {
                0
            });
        },
        None => {},
    }
    match e.p0 {
        Some(p) => {
            pins.write(p, if a % 10 >= 1 {
                100
            } else {
                0
            });
        },
        None => {},
    }
}

} // verus!
