//! Simple I/O pins: word-sized cells that never block and never take part in
//! the sleeper registry.

use vstd::prelude::*;

verus! {

/// Handle to one simple I/O pin of a board. Pins are created by
/// [`crate::board::Board::pin`] and read or written at any time, by controllers
/// while they run and by the harness between timesteps.
#[derive(Clone, Copy)]
pub struct SimplePin {
    pub(crate) id: usize,
}

impl View for SimplePin {
    type V = int;

    closed spec fn view(&self) -> int {
        self.id as int
    }
}

/// The bank of all simple pins of a board, each holding one signed 32-bit
/// value. Its view is the sequence of current pin values, indexed by pin
/// handle.
pub struct Pins {
    pub(crate) cells: Vec<i32>,
}

impl View for Pins {
    type V = Seq<i32>;

    closed spec fn view(&self) -> Seq<i32> {
        self.cells@
    }
}

/// Crate-internal: a pin handle's view is its arena index.
pub(crate) broadcast proof fn pin_id(p: SimplePin)
    ensures
        #[trigger] p.view() == p.id as int,
{
}

/// Crate-internal: the pin bank's view is the view of its cells.
pub(crate) broadcast proof fn pins_view(p: &Pins)
    ensures
        #[trigger] p.view() == p.cells@,
{
}

impl Pins {
    /// Read the current value of a pin. Never blocks.
    pub fn read(&self, p: SimplePin) -> (r: i32)
        requires
            0 <= p@ < self@.len(),
        ensures
            r == self@[p@],
    {
        self.cells[p.id]
    }

    /// Overwrite the value of a pin. Never blocks; the previous value is lost.
    pub fn write(&mut self, p: SimplePin, v: i32)
        requires
            0 <= p@ < old(self)@.len(),
        ensures
            final(self)@ == old(self)@.update(p@, v),
    {
        self.cells[p.id] = v;
    }
}

} // verus!
