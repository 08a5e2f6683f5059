//! The XBus: a multi-producer/multi-consumer rendezvous channel with
//! peripheral endpoints.
//!
//! A bus holds registries of pending readers and pending writers (controllers
//! parked mid-operation) and lists of connected sources and sinks (peripheral
//! endpoints that never park). The resolution rules live in
//! [`crate::board::Board`]; controller bodies only build [`Action`] requests
//! through the methods here.

use vstd::prelude::*;

use crate::board::Board;
use crate::controller::Action;

verus! {

/// Handle to one XBus of a board. Copy it freely: all copies denote the same
/// bus.
#[derive(Clone, Copy, Debug)]
pub struct XBus {
    pub(crate) id: usize,
}

impl View for XBus {
    type V = int;

    closed spec fn view(&self) -> int {
        self.id as int
    }
}

/// A peripheral endpoint connected to a bus, named by an index into the
/// board's arena of that peripheral kind. `MemData` and `MemAddr` carry the
/// memory index and the pointer index (0 or 1) they serve.
#[derive(Clone, Copy, Debug, PartialEq, Eq, Structural)]
pub enum Endpoint {
    Expander(usize),
    MemData(usize, usize),
    MemAddr(usize, usize),
    Input(usize),
    Output(usize),
}

/// The state of one bus, as its view shows it: connected endpoints in
/// registration order, and the pending registries. `readers` lists parked
/// controllers waiting for a value; `writers` lists parked controllers with
/// the value each one offered.
#[verifier::ext_equal]
pub struct BusView {
    pub sources: Seq<Endpoint>,
    pub sinks: Seq<Endpoint>,
    pub readers: Seq<usize>,
    pub writers: Seq<(usize, i32)>,
}

pub(crate) struct BusState {
    pub(crate) sources: Vec<Endpoint>,
    pub(crate) sinks: Vec<Endpoint>,
    pub(crate) readers: Vec<usize>,
    pub(crate) writers: Vec<(usize, i32)>,
}

impl View for BusState {
    type V = BusView;

    closed spec fn view(&self) -> BusView {
        BusView {
            sources: self.sources@,
            sinks: self.sinks@,
            readers: self.readers@,
            writers: self.writers@,
        }
    }
}

/// Crate-internal: a bus handle's view is its arena index.
pub(crate) broadcast proof fn xbus_id(b: XBus)
    ensures
        #[trigger] b.view() == b.id as int,
{
}

/// Crate-internal: a bus state's view collects its four field views.
pub(crate) broadcast proof fn bus_state_view(s: &BusState)
    ensures
        #[trigger] s.view() == (BusView {
            sources: s.sources@,
            sinks: s.sinks@,
            readers: s.readers@,
            writers: s.writers@,
        }),
{
}

/// A bus with nothing connected and nobody pending.
pub open spec fn empty_bus() -> BusView {
    BusView { sources: Seq::empty(), sinks: Seq::empty(), readers: Seq::empty(), writers: Seq::empty() }
}

impl XBus {
    /// Crate-internal: the bus's index into the board's arena.
    pub(crate) fn index(&self) -> (i: usize)
        ensures
            i as int == self@,
    {
        self.id
    }

    /// Create a new XBus on the board, with no endpoints and nobody pending.
    pub fn new(board: &mut Board) -> (r: XBus)
        ensures
            final(board)@ == old(board)@.with_bus(empty_bus()),
            r@ == old(board)@.buses.len(),
    {
        board.add_bus()
    }

    /// For controller code: sleep until there is a value readable from this
    /// bus. If the bus is already readable the scheduler resumes the caller at
    /// once. Even after waking, an immediate read may still park: every
    /// controller sleeping on the bus wakes when one value arrives.
    pub fn sleep(&self) -> (r: Action)
        ensures
            r == Action::BusSleep(*self),
    {
        Action::BusSleep(*self)
    }

    /// For controller code: read from the bus, parking until a value is
    /// available. The value arrives in the next [`crate::controller::Event::Value`].
    pub fn read(&self) -> (r: Action)
        ensures
            r == Action::BusRead(*self),
    {
        Action::BusRead(*self)
    }

    /// For controller code: write to the bus, parking until something
    /// consumes the value.
    pub fn write(&self, val: i32) -> (r: Action)
        ensures
            r == Action::BusWrite(*self, val),
    {
        Action::BusWrite(*self, val)
    }
}

} // verus!
